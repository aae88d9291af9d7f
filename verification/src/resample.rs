//! The downsampling rule that both pipelines apply before they encode.

use crate::codec::{image_dimensions, raster_of, resize_image, Raster, Resampling};
use crate::quality::{spec_target_dimensions, target_dimensions};
use image::DynamicImage;
use vstd::prelude::*;

verus! {

/// The dimensions that an image is brought down to at a quality, where they
/// differ from its own.
pub open spec fn spec_new_dimensions(width: u32, height: u32, quality: u8) -> Option<(u32, u32)> {
    let target = spec_target_dimensions(width, height, quality);
    if target != (width as int, height as int) {
        Some((target.0 as u32, target.1 as u32))
    } else {
        None
    }
}

/// Whether `prepared` can be what an encoder is handed for `source` at a
/// quality: the source itself where it has the target dimensions, and
/// otherwise an image of the target dimensions in the layout of the source.
/// Which samples a resampled image has is left to the codec library.
pub open spec fn spec_is_prepared(source: Raster, quality: u8, prepared: Raster) -> bool {
    match spec_new_dimensions(source.width, source.height, quality) {
        Some((width, height)) => prepared.layout == source.layout && prepared.width == width
            && prepared.height == height,
        None => prepared == source,
    }
}

/// Brings an image down to the target dimensions for a quality, resampling
/// with the Lanczos kernel of window three. Returns the resampled image, or
/// `None` where the image already has those dimensions.
pub fn downsample(image: &DynamicImage, quality: u8) -> (smaller: Option<DynamicImage>)
    ensures
        match smaller {
            Some(resized) => spec_new_dimensions(raster_of(*image).width, raster_of(*image).height, quality)
                is Some && spec_is_prepared(raster_of(*image), quality, raster_of(resized)),
            None => spec_new_dimensions(raster_of(*image).width, raster_of(*image).height, quality) is None
                && spec_is_prepared(raster_of(*image), quality, raster_of(*image)),
        },
{
    let (width, height) = image_dimensions(image);
    let target = target_dimensions(width, height, quality);
    if target.0 != width || target.1 != height {
        Some(resize_image(image, target.0, target.1, Resampling::Lanczos3))
    } else {
        None
    }
}

/// The dimensions that an image of a given size is brought down to at a
/// quality, where they differ from its own.
pub fn new_dimensions(width: u32, height: u32, quality: u8) -> (changed: Option<(u32, u32)>)
    ensures
        changed == spec_new_dimensions(width, height, quality),
{
    let target = target_dimensions(width, height, quality);
    if target.0 != width || target.1 != height {
        Some(target)
    } else {
        None
    }
}

} // verus!
