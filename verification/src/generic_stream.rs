//! Recompression of a stream that is no image, with the byte compressor.

use crate::codec::{bytes_view, deflate, deflated};
use crate::model::{
    gate, spec_gate, DictUpdate, FilterKind, FilterUpdate, OutcomeView, RecompressionOutcome, StreamUnit,
};
use vstd::prelude::*;

verus! {

/// The effort that the byte compressor is asked for: its maximum.
pub const MAX_EFFORT: u32 = 9;

/// The dictionary entries that follow a deflated payload.
pub open spec fn spec_flate_update(filter: FilterUpdate) -> DictUpdate {
    DictUpdate { filter, device_rgb: false, dimensions: None }
}

/// Deflating `data` and passing the result through the accept gate.
pub open spec fn spec_deflate_attempt(data: Seq<u8>, original_len: nat, filter: FilterUpdate) -> OutcomeView {
    match deflated(data, MAX_EFFORT) {
        Some(packed) => spec_gate(packed, original_len, spec_flate_update(filter)),
        None => OutcomeView::Keep,
    }
}

/// The first attempt on a filtered stream: deflating what the container
/// library decoded.
pub open spec fn spec_primary_attempt(unit: StreamUnit) -> OutcomeView {
    match bytes_view(unit.decoded) {
        Some(raw) => spec_deflate_attempt(raw, unit.content@.len(), FilterUpdate::Flate),
        None => OutcomeView::Keep,
    }
}

/// The second attempt on a filtered stream: deflating the payload as it is
/// and putting deflate in front of the declared filters. It is made where
/// those filters are a known list of names, so that a declaration can be
/// written that inverts to the same content.
pub open spec fn spec_fallback_attempt(unit: StreamUnit) -> OutcomeView {
    if unit.filter_chain is Some {
        spec_deflate_attempt(unit.content@, unit.content@.len(), FilterUpdate::FlateOver)
    } else {
        OutcomeView::Keep
    }
}

/// What the generic recompressor decides for a stream.
pub open spec fn spec_generic_outcome(unit: StreamUnit) -> OutcomeView {
    match unit.filter {
        FilterKind::Absent => spec_deflate_attempt(unit.content@, unit.content@.len(), FilterUpdate::Flate),
        _ => if spec_primary_attempt(unit) is Replace {
            spec_primary_attempt(unit)
        } else {
            spec_fallback_attempt(unit)
        },
    }
}

/// Deflates `data` at maximum effort and passes the result through the
/// accept gate.
fn deflate_attempt(data: &[u8], original_len: usize, filter: FilterUpdate) -> (outcome: RecompressionOutcome)
    ensures
        outcome@ == spec_deflate_attempt(data@, original_len as nat, filter),
        outcome@.shrinks(original_len as nat),
{
    match deflate(data, MAX_EFFORT) {
        Some(packed) => gate(packed, original_len, DictUpdate { filter, device_rgb: false, dimensions: None }),
        None => RecompressionOutcome::Keep,
    }
}

/// Recompresses a generic stream. An unfiltered payload is deflated at
/// maximum effort. A filtered payload is decoded and deflated; where that
/// fails or does not shrink the stream, the payload is deflated as it is.
/// A result is committed only if it is strictly shorter than the payload.
pub fn compress_generic_stream(unit: &StreamUnit) -> (outcome: RecompressionOutcome)
    ensures
        outcome@ == spec_generic_outcome(*unit),
        outcome@.shrinks(unit.content@.len()),
{
    let original_len: usize = unit.content.len();
    match unit.filter {
        FilterKind::Absent => deflate_attempt(unit.content.as_slice(), original_len, FilterUpdate::Flate),
        _ => {
            let primary = match &unit.decoded {
                Some(raw) => deflate_attempt(raw.as_slice(), original_len, FilterUpdate::Flate),
                None => RecompressionOutcome::Keep,
            };
            if primary.is_replace() {
                primary
            } else if unit.filter_chain.is_some() {
                deflate_attempt(unit.content.as_slice(), original_len, FilterUpdate::FlateOver)
            } else {
                RecompressionOutcome::Keep
            }
        },
    }
}

} // verus!
