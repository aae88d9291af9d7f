//! Raw sample buffers: which layout a buffer has, and its conversion to RGB.

use vstd::prelude::*;

verus! {

/// The layout of a buffer of 8-bit samples.
#[derive(Clone, Copy, Debug, PartialEq, Eq, Structural)]
pub enum PixelLayout {
    /// One sample per pixel.
    Gray,
    /// Three samples per pixel.
    Rgb,
    /// Four samples per pixel, the last being alpha.
    Rgba,
}

/// The layout that a buffer length implies for an image of the given
/// dimensions, read off the length alone: three samples per pixel, else
/// four, else one. Any other length implies none.
pub open spec fn spec_infer_layout(raw_len: nat, width: u32, height: u32) -> Option<PixelLayout> {
    let pixels = width as nat * height as nat;
    if raw_len == pixels * 3 {
        Some(PixelLayout::Rgb)
    } else if raw_len == pixels * 4 {
        Some(PixelLayout::Rgba)
    } else if raw_len == pixels {
        Some(PixelLayout::Gray)
    } else {
        None
    }
}

/// The RGB samples of a buffer: unchanged for RGB, without every fourth
/// sample for RGBA, each sample three times for gray.
pub open spec fn spec_to_rgb(raw: Seq<u8>, layout: PixelLayout) -> Seq<u8> {
    match layout {
        PixelLayout::Rgb => raw,
        PixelLayout::Rgba => Seq::new(((raw.len() / 4) * 3) as nat, |i: int| raw[(i / 3) * 4 + i % 3]),
        PixelLayout::Gray => Seq::new((raw.len() * 3) as nat, |i: int| raw[i / 3]),
    }
}

/// Reads the layout of a sample buffer off its length. Ambiguous or
/// unexpected lengths give `None`; nothing is guessed.
pub fn infer_layout(raw_len: usize, width: u32, height: u32) -> (layout: Option<PixelLayout>)
    ensures
        layout == spec_infer_layout(raw_len as nat, width, height),
{
    assert(width as int * height as int <= 0xffff_ffff * 0xffff_ffff) by (nonlinear_arith)
        requires
            0 <= width <= 0xffff_ffff,
            0 <= height <= 0xffff_ffff,
    ;
    let pixels: u128 = width as u128 * height as u128;
    let len: u128 = raw_len as u128;
    if len == pixels * 3 {
        Some(PixelLayout::Rgb)
    } else if len == pixels * 4 {
        Some(PixelLayout::Rgba)
    } else if len == pixels {
        Some(PixelLayout::Gray)
    } else {
        None
    }
}

/// Converts a sample buffer to RGB: alpha is dropped, gray is spread over the
/// three channels.
pub fn to_rgb(raw: Vec<u8>, layout: PixelLayout) -> (rgb: Vec<u8>)
    requires
        layout == PixelLayout::Gray ==> raw@.len() * 3 <= usize::MAX,
    ensures
        rgb@ == spec_to_rgb(raw@, layout),
        layout == PixelLayout::Rgb ==> rgb@.len() == raw@.len(),
        layout == PixelLayout::Rgba ==> rgb@.len() == (raw@.len() / 4) * 3,
        layout == PixelLayout::Gray ==> rgb@.len() == raw@.len() * 3,
{
    match layout {
        PixelLayout::Rgb => raw,
        PixelLayout::Rgba => {
            let pixels: usize = raw.len() / 4;
            let mut rgb: Vec<u8> = Vec::new();
            let mut p: usize = 0;
            while p < pixels
                invariant
                    pixels == raw.len() / 4,
                    pixels * 4 <= raw.len(),
                    p <= pixels,
                    rgb@.len() == p * 3,
                    forall|i: int| 0 <= i < rgb@.len() ==> rgb@[i] == raw@[(i / 3) * 4 + i % 3],
                decreases pixels - p,
            {
                let base: usize = p * 4;
                rgb.push(raw[base]);
                rgb.push(raw[base + 1]);
                rgb.push(raw[base + 2]);
                p = p + 1;
            }
            assert(rgb@ =~= spec_to_rgb(raw@, layout));
            rgb
        },
        PixelLayout::Gray => {
            let mut rgb: Vec<u8> = Vec::new();
            let mut p: usize = 0;
            while p < raw.len()
                invariant
                    p <= raw@.len(),
                    rgb@.len() == p * 3,
                    forall|i: int| 0 <= i < rgb@.len() ==> rgb@[i] == raw@[i / 3],
                decreases raw@.len() - p,
            {
                let sample: u8 = raw[p];
                rgb.push(sample);
                rgb.push(sample);
                rgb.push(sample);
                p = p + 1;
            }
            assert(rgb@ =~= spec_to_rgb(raw@, layout));
            rgb
        },
    }
}

} // verus!
