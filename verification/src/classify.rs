//! Classification of a stream from what its dictionary declares.

use crate::model::{FilterKind, StreamClassification, StreamUnit};
use vstd::prelude::*;

verus! {

/// The classification of a stream: an image only if it declares the image
/// subtype, a positive width and height that fit 32 bits, and bits per
/// component that is 8 or missing; generic otherwise.
pub open spec fn spec_classify(unit: StreamUnit) -> StreamClassification {
    if unit.is_image && spec_dimension(unit.width) is Some && spec_dimension(unit.height) is Some
        && spec_eight_bit(unit.bits_per_component) {
        StreamClassification::Image {
            width: spec_dimension(unit.width)->0,
            height: spec_dimension(unit.height)->0,
            bits_per_component: 8,
            filter: unit.filter,
        }
    } else {
        StreamClassification::Generic
    }
}

/// A declared dimension, where it is positive and fits 32 bits.
pub open spec fn spec_dimension(declared: Option<i64>) -> Option<u32> {
    match declared {
        Some(value) if 0 < value <= u32::MAX => Some(value as u32),
        _ => None,
    }
}

/// Whether the declared bits per component allow recompression.
pub open spec fn spec_eight_bit(declared: Option<i64>) -> bool {
    match declared {
        Some(bits) => bits == 8,
        None => true,
    }
}

/// Whether a filter is one that only image data is ever under.
pub open spec fn spec_is_image_only(filter: FilterKind) -> bool {
    filter == FilterKind::Dct || filter == FilterKind::ImageOnly
}

/// Reads a declared dimension.
fn dimension(declared: Option<i64>) -> (side: Option<u32>)
    ensures
        side == spec_dimension(declared),
{
    match declared {
        Some(value) => {
            if 0 < value && value <= 0xffff_ffff {
                Some(value as u32)
            } else {
                None
            }
        },
        None => None,
    }
}

/// Checks the declared bits per component.
fn eight_bit(declared: Option<i64>) -> (ok: bool)
    ensures
        ok == spec_eight_bit(declared),
{
    match declared {
        Some(bits) => bits == 8,
        None => true,
    }
}

/// Whether the stream is an image: it declares the image subtype, a
/// positive width and height, and bits per component that is 8 or missing.
pub fn is_image_stream(unit: &StreamUnit) -> (image: bool)
    ensures
        image == (spec_classify(*unit) is Image),
{
    match classify(unit) {
        StreamClassification::Image { .. } => true,
        StreamClassification::Generic => false,
    }
}

/// Whether a filter is one that only image data is ever under.
pub fn is_image_only(filter: FilterKind) -> (image_only: bool)
    ensures
        image_only == spec_is_image_only(filter),
{
    match filter {
        FilterKind::Dct => true,
        FilterKind::ImageOnly => true,
        _ => false,
    }
}

/// Classifies a stream.
pub fn classify(unit: &StreamUnit) -> (classification: StreamClassification)
    ensures
        classification == spec_classify(*unit),
{
    if !unit.is_image {
        return StreamClassification::Generic;
    }
    match (dimension(unit.width), dimension(unit.height)) {
        (Some(width), Some(height)) => {
            if eight_bit(unit.bits_per_component) {
                StreamClassification::Image { width, height, bits_per_component: 8, filter: unit.filter }
            } else {
                StreamClassification::Generic
            }
        },
        _ => StreamClassification::Generic,
    }
}

} // verus!
