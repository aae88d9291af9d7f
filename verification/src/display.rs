//! What the desktop front end shows: the band that a level falls in, the
//! progress of a batch, and how much a file shrank.

use crate::naming::{push_decimal, spec_decimal};
use vstd::prelude::*;
use vstd::string::*;

verus! {

/// The four bands of compression levels.
#[derive(Clone, Copy, Debug, PartialEq, Eq, Structural)]
pub enum CompressionBand {
    Low,
    Medium,
    High,
    Maximum,
}

/// The band that a level falls in: up to 25, up to 50, up to 75, above.
pub open spec fn spec_band(level: u8) -> CompressionBand {
    if level <= 25 {
        CompressionBand::Low
    } else if level <= 50 {
        CompressionBand::Medium
    } else if level <= 75 {
        CompressionBand::High
    } else {
        CompressionBand::Maximum
    }
}

/// The short name of a band.
pub open spec fn spec_label(band: CompressionBand) -> Seq<char> {
    match band {
        CompressionBand::Low => "Low Compression"@,
        CompressionBand::Medium => "Medium Compression"@,
        CompressionBand::High => "High Compression"@,
        CompressionBand::Maximum => "Maximum Compression"@,
    }
}

/// The line that describes a band.
pub open spec fn spec_description(band: CompressionBand) -> Seq<char> {
    match band {
        CompressionBand::Low => "Low Compression (10-25%) - Best quality, larger file size"@,
        CompressionBand::Medium => "Medium Compression (25-50%) - Good balance"@,
        CompressionBand::High => "High Compression (50-75%) - Good size reduction (Recommended)"@,
        CompressionBand::Maximum => "Maximum Compression (75-95%) - Smallest files, quality loss visible"@,
    }
}

/// The progress line of a batch.
pub open spec fn spec_progress_text(processed: usize, total: usize) -> Seq<char> {
    "Processed "@ + spec_decimal(processed as nat) + seq!['/'] + spec_decimal(total as nat) + " files"@
}

/// How much shorter `compressed` is than `original`, in hundredths of a
/// percent of `original`, rounded toward zero; negative where the file
/// grew, and zero for an empty original.
pub open spec fn spec_reduction_hundredths(original: u64, compressed: u64) -> int {
    if original == 0 {
        0
    } else if compressed <= original {
        ((original - compressed) * 10000) / (original as int)
    } else {
        -(((compressed - original) * 10000) / (original as int))
    }
}

/// The text of a number of hundredths as a number with two decimals: a
/// minus sign where it is negative, the whole part, a point and the two
/// digits of the hundredths.
pub open spec fn spec_hundredths_text(hundredths: int) -> Seq<char> {
    let size = if hundredths < 0 {
        -hundredths
    } else {
        hundredths
    };
    let sign = if hundredths < 0 {
        seq!['-']
    } else {
        Seq::<char>::empty()
    };
    sign + spec_decimal((size / 100) as nat) + seq!['.'] + spec_decimal(((size % 100) / 10) as nat)
        + spec_decimal((size % 10) as nat)
}

/// How much a file shrank, in whole percent; zero where it did not shrink.
pub open spec fn spec_reduction_percent(original: u64, compressed: u64) -> int {
    if original > 0 && compressed < original {
        ((original - compressed) * 100) / (original as int)
    } else {
        0
    }
}

/// The band that a level falls in.
pub fn compression_band(level: u8) -> (band: CompressionBand)
    ensures
        band == spec_band(level),
{
    if level <= 25 {
        CompressionBand::Low
    } else if level <= 50 {
        CompressionBand::Medium
    } else if level <= 75 {
        CompressionBand::High
    } else {
        CompressionBand::Maximum
    }
}

/// The short name of a band.
pub fn band_label(band: CompressionBand) -> (label: &'static str)
    ensures
        label@ == spec_label(band),
{
    match band {
        CompressionBand::Low => "Low Compression",
        CompressionBand::Medium => "Medium Compression",
        CompressionBand::High => "High Compression",
        CompressionBand::Maximum => "Maximum Compression",
    }
}

/// The line that describes a band.
pub fn band_description(band: CompressionBand) -> (description: &'static str)
    ensures
        description@ == spec_description(band),
{
    match band {
        CompressionBand::Low => "Low Compression (10-25%) - Best quality, larger file size",
        CompressionBand::Medium => "Medium Compression (25-50%) - Good balance",
        CompressionBand::High => "High Compression (50-75%) - Good size reduction (Recommended)",
        CompressionBand::Maximum => "Maximum Compression (75-95%) - Smallest files, quality loss visible",
    }
}

/// The progress line of a batch: how many of its files are done.
pub fn progress_text(processed: usize, total: usize) -> (text: String)
    ensures
        text@ == spec_progress_text(processed, total),
{
    let mut text = String::from_str("Processed ");
    push_decimal(&mut text, processed as u128);
    text.append("/");
    proof {
        reveal_strlit("/");
        assert("/"@ =~= seq!['/']);
    }
    push_decimal(&mut text, total as u128);
    text.append(" files");
    assert(text@ =~= spec_progress_text(processed, total));
    text
}

/// Whether a batch is done: as many results are in as files were chosen.
pub fn batch_finished(processed: usize, total: usize) -> (finished: bool)
    ensures
        finished == (processed >= total),
{
    processed >= total
}

/// How much shorter the compressed file is, in hundredths of a percent.
pub fn reduction_hundredths(original: u64, compressed: u64) -> (hundredths: i128)
    ensures
        hundredths == spec_reduction_hundredths(original, compressed),
        compressed <= original ==> 0 <= hundredths <= 10000,
        compressed > original ==> i128::MIN < hundredths <= 0,
{
    if original == 0 {
        0
    } else if compressed <= original {
        let saved: i128 = (original - compressed) as i128;
        let scaled: i128 = saved * 10000;
        let quotient: i128 = scaled / (original as i128);
        assert(quotient <= 10000) by (nonlinear_arith)
            requires
                quotient == (saved * 10000) / (original as int),
                0 <= saved <= original,
                original > 0,
        ;
        quotient
    } else {
        let grown: i128 = (compressed - original) as i128;
        let scaled: i128 = grown * 10000;
        let quotient: i128 = scaled / (original as i128);
        -quotient
    }
}

/// How much shorter the compressed file is, in percent with two decimals,
/// as a text.
pub fn reduction_text(original: u64, compressed: u64) -> (text: String)
    ensures
        text@ == spec_hundredths_text(spec_reduction_hundredths(original, compressed)),
{
    let hundredths = reduction_hundredths(original, compressed);
    let mut text = String::from_str("");
    proof {
        reveal_strlit("");
        reveal_strlit("-");
        reveal_strlit(".");
    }
    let size: u128 = if hundredths < 0 {
        text.append("-");
        (-hundredths) as u128
    } else {
        hundredths as u128
    };
    let ghost sign = text@;
    push_decimal(&mut text, size / 100);
    text.append(".");
    push_decimal(&mut text, (size % 100) / 10);
    push_decimal(&mut text, size % 10);
    assert(text@ =~= sign + spec_decimal((size / 100) as nat) + seq!['.'] + spec_decimal(
        ((size % 100) / 10) as nat,
    ) + spec_decimal((size % 10) as nat));
    assert(sign =~= if hundredths < 0 {
        seq!['-']
    } else {
        Seq::<char>::empty()
    });
    text
}

/// How much a file shrank, in whole percent.
pub fn reduction_percent(original: u64, compressed: u64) -> (percent: u64)
    ensures
        percent == spec_reduction_percent(original, compressed),
        percent <= 100,
{
    if original > 0 && compressed < original {
        let saved: u128 = (original - compressed) as u128;
        let quotient: u128 = (saved * 100) / (original as u128);
        assert(quotient <= 100) by (nonlinear_arith)
            requires
                quotient == (saved * 100) / (original as int),
                0 <= saved <= original,
                original > 0,
        ;
        quotient as u64
    } else {
        0
    }
}

} // verus!
