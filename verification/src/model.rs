//! The data that the policy engine works on.
//!
//! A stream of a document is read once, into a `StreamUnit` of plain values.
//! Every decision is a function of that unit; what is decided is a
//! `RecompressionOutcome`, which either keeps the stream or names the new
//! payload together with the dictionary entries that have to follow it.

use vstd::prelude::*;

verus! {

/// The codec parameter that one compression call works with.
#[derive(Clone, Copy, Debug)]
pub struct CompressionSettings {
    /// Codec quality, 1 to 100.
    pub quality: u8,
}

/// The outcome of compressing one file, as front ends report it.
#[derive(Clone, Debug)]
pub struct CompressionResult {
    pub original_size: u64,
    pub compressed_size: u64,
    pub success: bool,
    pub error_message: Option<String>,
}

/// What a stream's dictionary says of the filter that its payload is under.
#[derive(Clone, Copy, Debug, PartialEq, Eq, Structural)]
pub enum FilterKind {
    /// No filter is declared: the payload is the content itself.
    Absent,
    /// The deflate filter.
    Flate,
    /// The JPEG filter: the payload is already lossy.
    Dct,
    /// Another filter that only image data is ever under.
    ImageOnly,
    /// Any other single filter.
    Other,
    /// Something else than a single name: a chain of filters, or a value
    /// that is no filter declaration at all.
    Chain,
}

/// One stream of a document, as the policy engine sees it.
#[derive(Debug)]
pub struct StreamUnit {
    /// The identifier of the stream object.
    pub id: (u32, u16),
    /// Whether the dictionary declares the image subtype.
    pub is_image: bool,
    /// The declared filter.
    pub filter: FilterKind,
    /// The names of all declared filters in decoding order, where the
    /// declaration is a name or a list of names.
    pub filter_chain: Option<Vec<Vec<u8>>>,
    /// Whether the dictionary holds parameters for its filters.
    pub has_decode_parms: bool,
    /// The declared width, where it is an integer.
    pub width: Option<i64>,
    /// The declared height, where it is an integer.
    pub height: Option<i64>,
    /// The declared bits per component, where it is an integer.
    pub bits_per_component: Option<i64>,
    /// The payload as stored.
    pub content: Vec<u8>,
    /// The payload with the declared filters inverted by the container
    /// library, where the policy asks for it and the library can do it.
    pub decoded: Option<Vec<u8>>,
}

/// What a stream is, for the choice of a recompressor.
#[derive(Clone, Copy, Debug, PartialEq, Eq)]
pub enum StreamClassification {
    /// An image of 8-bit samples with known, positive dimensions.
    Image { width: u32, height: u32, bits_per_component: u8, filter: FilterKind },
    /// Anything else.
    Generic,
}

/// The filter declaration that goes with a new payload.
#[derive(Clone, Copy, Debug, PartialEq, Eq, Structural)]
pub enum FilterUpdate {
    /// The payload is a deflate stream of the content.
    Flate,
    /// The payload is a JPEG file.
    Dct,
    /// The payload is a deflate stream of the old payload: deflate comes in
    /// front of the filters that were declared.
    FlateOver,
}

/// The dictionary entries that change together with the payload. The
/// declared length always follows the payload and is not listed.
#[derive(Clone, Copy, Debug, PartialEq, Eq)]
pub struct DictUpdate {
    /// The new filter declaration. With `Flate` and `Dct` the parameters of
    /// the old filters no longer apply and are removed.
    pub filter: FilterUpdate,
    /// The colour space becomes device RGB.
    pub device_rgb: bool,
    /// The new width and height, where they changed.
    pub dimensions: Option<(u32, u32)>,
}

/// What was decided for one stream.
#[derive(Clone, Debug)]
pub enum RecompressionOutcome {
    /// The stream stays as it is.
    Keep,
    /// The stream gets a new payload, which is strictly shorter than the old.
    Replace { payload: Vec<u8>, update: DictUpdate },
}

/// The mathematical value of a `RecompressionOutcome`.
pub enum OutcomeView {
    Keep,
    Replace { payload: Seq<u8>, update: DictUpdate },
}

impl View for RecompressionOutcome {
    type V = OutcomeView;

    open spec fn view(&self) -> OutcomeView {
        match self {
            RecompressionOutcome::Keep => OutcomeView::Keep,
            RecompressionOutcome::Replace { payload, update } => OutcomeView::Replace {
                payload: payload@,
                update: *update,
            },
        }
    }
}

impl OutcomeView {
    /// The single invariant of the policy engine: a replacement is strictly
    /// shorter than the payload it replaces.
    pub open spec fn shrinks(self, original_len: nat) -> bool {
        match self {
            OutcomeView::Keep => true,
            OutcomeView::Replace { payload, .. } => payload.len() < original_len,
        }
    }

    /// The payload of the stream once the outcome is applied.
    pub open spec fn payload_after(self, original: Seq<u8>) -> Seq<u8> {
        match self {
            OutcomeView::Keep => original,
            OutcomeView::Replace { payload, .. } => payload,
        }
    }

    /// The bytes that the outcome saves.
    pub open spec fn saved(self, original_len: nat) -> int {
        match self {
            OutcomeView::Keep => 0,
            OutcomeView::Replace { payload, .. } => original_len - payload.len(),
        }
    }
}

impl RecompressionOutcome {
    /// Whether the stream gets a new payload.
    pub fn is_replace(&self) -> (replaces: bool)
        ensures
            replaces == (self@ is Replace),
    {
        match self {
            RecompressionOutcome::Keep => false,
            RecompressionOutcome::Replace { .. } => true,
        }
    }
}

/// The accept gate: a candidate payload is committed only if it is strictly
/// shorter than the original; otherwise the stream is kept.
pub fn gate(candidate: Vec<u8>, original_len: usize, update: DictUpdate) -> (outcome: RecompressionOutcome)
    ensures
        outcome@ == spec_gate(candidate@, original_len as nat, update),
        outcome@.shrinks(original_len as nat),
{
    if candidate.len() < original_len {
        RecompressionOutcome::Replace { payload: candidate, update }
    } else {
        RecompressionOutcome::Keep
    }
}

/// What the accept gate decides for a candidate payload.
pub open spec fn spec_gate(candidate: Seq<u8>, original_len: nat, update: DictUpdate) -> OutcomeView {
    if candidate.len() < original_len {
        OutcomeView::Replace { payload: candidate, update }
    } else {
        OutcomeView::Keep
    }
}

} // verus!
