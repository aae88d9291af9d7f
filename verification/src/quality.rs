//! Mapping from the user-facing compression level to codec parameters.

use vstd::prelude::*;

verus! {

/// Lowest compression level that is honoured; smaller inputs are raised to it.
pub const MIN_LEVEL: u8 = 10;

/// Highest compression level that is honoured; larger inputs are lowered to it.
pub const MAX_LEVEL: u8 = 95;

/// Level used when a caller does not choose one.
pub const DEFAULT_LEVEL: u8 = 75;

/// A level brought into the honoured range.
pub open spec fn spec_clamp_level(level: u8) -> u8 {
    if level < MIN_LEVEL {
        MIN_LEVEL
    } else if level > MAX_LEVEL {
        MAX_LEVEL
    } else {
        level
    }
}

/// The codec quality that belongs to a level: four linear segments that meet
/// at levels 25, 50 and 75 with qualities 90, 70 and 50.
pub open spec fn spec_level_to_quality(level: u8) -> int {
    let l = spec_clamp_level(level) as int;
    if l <= 25 {
        100 - (l * 2) / 5
    } else if l <= 50 {
        90 - ((l - 25) * 4) / 5
    } else if l <= 75 {
        70 - ((l - 50) * 4) / 5
    } else {
        50 - (l - 75)
    }
}

/// The longest side, in pixels, that an image keeps at a given quality;
/// `None` means that the image is never downsampled.
pub open spec fn spec_quality_to_max_dimension(quality: u8) -> Option<u32> {
    if quality >= 90 {
        None
    } else if quality >= 70 {
        Some(1500u32)
    } else if quality >= 50 {
        Some(1200u32)
    } else {
        Some(1000u32)
    }
}

/// One side of an image after scaling by `cap / longest`, rounded down, but
/// never rounded down to nothing.
pub open spec fn spec_scale_side(side: u32, longest: u32, cap: u32) -> int {
    let scaled = (side as int * cap as int) / (longest as int);
    if side > 0 && scaled == 0 {
        1
    } else {
        scaled
    }
}

/// The dimensions an image of `width` x `height` is encoded at.
pub open spec fn spec_target_dimensions(width: u32, height: u32, quality: u8) -> (int, int) {
    let longest = if width >= height { width } else { height };
    match spec_quality_to_max_dimension(quality) {
        Some(cap) if longest > cap => (
            spec_scale_side(width, longest, cap),
            spec_scale_side(height, longest, cap),
        ),
        _ => (width as int, height as int),
    }
}

/// Whether a level lies in the honoured range.
pub fn is_valid_level(level: u8) -> (ok: bool)
    ensures
        ok == (MIN_LEVEL <= level <= MAX_LEVEL),
        ok == (spec_clamp_level(level) == level),
{
    level >= MIN_LEVEL && level <= MAX_LEVEL
}

/// Brings any level into the honoured range.
pub fn clamp_level(level: u8) -> (clamped: u8)
    ensures
        clamped == spec_clamp_level(level),
        MIN_LEVEL <= clamped <= MAX_LEVEL,
{
    if level < MIN_LEVEL {
        MIN_LEVEL
    } else if level > MAX_LEVEL {
        MAX_LEVEL
    } else {
        level
    }
}

/// Maps a compression level to the codec quality. The level is clamped first,
/// so the function is total.
pub fn level_to_quality(level: u8) -> (quality: u8)
    ensures
        quality == spec_level_to_quality(level),
        30 <= quality <= 96,
{
    let l: u8 = clamp_level(level);
    if l <= 25 {
        100 - (l * 2) / 5
    } else if l <= 50 {
        90 - ((l - 25) * 4) / 5
    } else if l <= 75 {
        70 - ((l - 50) * 4) / 5
    } else {
        50 - (l - 75)
    }
}

/// Maps a codec quality to the downsample cap.
pub fn quality_to_max_dimension(quality: u8) -> (cap: Option<u32>)
    ensures
        cap == spec_quality_to_max_dimension(quality),
{
    if quality >= 90 {
        None
    } else if quality >= 70 {
        Some(1500)
    } else if quality >= 50 {
        Some(1200)
    } else {
        Some(1000)
    }
}

/// Scales one side of an image whose longest side exceeds the cap.
fn scale_side(side: u32, longest: u32, cap: u32) -> (scaled: u32)
    requires
        side <= longest,
        0 < cap < longest,
    ensures
        scaled == spec_scale_side(side, longest, cap),
        scaled <= cap,
        scaled <= side,
        side == longest ==> scaled == cap,
        side > 0 ==> scaled > 0,
{
    assert(side as int * cap as int <= 0xffff_ffff * 0xffff_ffff) by (nonlinear_arith)
        requires
            0 <= side <= 0xffff_ffff,
            0 <= cap <= 0xffff_ffff,
    ;
    let product: u64 = side as u64 * cap as u64;
    let quotient: u64 = product / longest as u64;
    assert(quotient <= cap && quotient <= side && (side == longest ==> quotient == cap))
        by (nonlinear_arith)
        requires
            quotient == (side as int * cap as int) / (longest as int),
            0 <= side <= longest,
            0 < cap < longest,
    ;
    if side > 0 && quotient == 0 {
        1
    } else {
        quotient as u32
    }
}

/// Computes the dimensions an image is encoded at: unchanged when the longer
/// side fits under the cap for `quality`, otherwise both sides scaled by the
/// same ratio so that the longer side equals the cap.
pub fn target_dimensions(width: u32, height: u32, quality: u8) -> (target: (u32, u32))
    ensures
        (target.0 as int, target.1 as int) == spec_target_dimensions(width, height, quality),
        target.0 <= width,
        target.1 <= height,
        width > 0 ==> target.0 > 0,
        height > 0 ==> target.1 > 0,
        spec_quality_to_max_dimension(quality) matches Some(cap) ==> target.0 <= cap && target.1 <= cap,
{
    let longest: u32 = if width >= height { width } else { height };
    match quality_to_max_dimension(quality) {
        Some(cap) => {
            if longest > cap {
                (scale_side(width, longest, cap), scale_side(height, longest, cap))
            } else {
                (width, height)
            }
        },
        None => (width, height),
    }
}

/// Scaling by `cap / longest` and rounding down stays within one unit of
/// `longest` of the exact ratio, also where a side is kept from vanishing.
proof fn lemma_scaled_side_is_close(side: u32, longest: u32, cap: u32)
    requires
        side <= longest,
        0 < cap < longest,
    ensures
        -(longest as int) < cap * side - spec_scale_side(side, longest, cap) * longest,
        cap * side - spec_scale_side(side, longest, cap) * longest < longest,
        side == longest ==> spec_scale_side(side, longest, cap) == cap,
{
    let scaled = (side as int * cap as int) / (longest as int);
    let product = cap as int * side as int;
    assert(0 <= product - scaled * longest < longest && (side == longest ==> scaled == cap) && (side > 0
        ==> product > 0)) by (nonlinear_arith)
        requires
            product == cap as int * side as int,
            scaled == (side as int * cap as int) / (longest as int),
            0 <= side <= longest,
            0 < cap < longest,
    ;
    if side > 0 && scaled == 0 {
        assert(spec_scale_side(side, longest, cap) * longest == longest) by (nonlinear_arith)
            requires
                spec_scale_side(side, longest, cap) == 1,
        ;
    }
}

/// Downsampling keeps the aspect ratio: the cross products of the old and
/// the new dimensions differ by less than the longer side.
pub proof fn lemma_target_dimensions_keep_aspect(width: u32, height: u32, quality: u8)
    requires
        width > 0 || height > 0,
    ensures
        ({
            let target = spec_target_dimensions(width, height, quality);
            let longest = if width >= height {
                width
            } else {
                height
            };
            -longest < target.0 * height - target.1 * width < longest
        }),
{
    let target = spec_target_dimensions(width, height, quality);
    let longest = if width >= height {
        width
    } else {
        height
    };
    match spec_quality_to_max_dimension(quality) {
        Some(cap) if longest > cap => {
            lemma_scaled_side_is_close(width, longest, cap);
            lemma_scaled_side_is_close(height, longest, cap);
            if width >= height {
                assert(target.0 == cap);
                assert(target.0 * height - target.1 * width == cap * height - target.1 * longest);
            } else {
                assert(target.1 == cap);
                assert(target.0 * height - target.1 * width == -(cap * width - target.0 * longest)) by (nonlinear_arith)
                    requires
                        target.1 == cap,
                        height == longest,
                ;
            }
        },
        _ => {
            assert(target.0 * height - target.1 * width == 0) by (nonlinear_arith)
                requires
                    target.0 == width,
                    target.1 == height,
            ;
        },
    }
}

/// Levels only lose quality as they rise: a higher level never maps to a
/// higher quality than a lower one.
pub proof fn lemma_quality_is_monotonic(lower: u8, higher: u8)
    requires
        lower <= higher,
    ensures
        spec_level_to_quality(lower) >= spec_level_to_quality(higher),
{
}

} // verus!
