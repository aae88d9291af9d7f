//! The failures that a compression call can report.

use vstd::prelude::*;
use vstd::string::*;

verus! {

/// Why a call produced no output. Failures of a single stream never show up
/// here: the stream is kept as it was.
#[derive(Debug)]
pub enum CompressionError {
    /// The input holds no bytes.
    EmptyInput,
    /// The input is no document, or no image, that the outside library can
    /// read. The text says what was being read and ends in that library's
    /// message.
    ParseFailed(String),
    /// The requested output format is not one of the supported names. The
    /// text ends in the name as it was given.
    UnsupportedFormat(String),
    /// The output could not be encoded or written. The text ends in the
    /// outside library's message.
    SerializeFailed(String),
}

impl CompressionError {
    /// The message that `message` returns.
    pub open spec fn spec_message(self) -> Seq<char> {
        match self {
            CompressionError::EmptyInput => "Empty file"@,
            CompressionError::ParseFailed(text) => text@,
            CompressionError::UnsupportedFormat(text) => text@,
            CompressionError::SerializeFailed(text) => text@,
        }
    }

    /// A message for people.
    pub fn message(&self) -> (text: String)
        ensures
            text@ == self.spec_message(),
    {
        match self {
            CompressionError::EmptyInput => String::from_str("Empty file"),
            CompressionError::ParseFailed(text) => text.clone(),
            CompressionError::UnsupportedFormat(text) => text.clone(),
            CompressionError::SerializeFailed(text) => text.clone(),
        }
    }
}

/// Whether `text` begins with `prefix`.
pub open spec fn starts_with(text: Seq<char>, prefix: Seq<char>) -> bool {
    prefix.len() <= text.len() && text.subrange(0, prefix.len() as int) == prefix
}

/// Puts a fixed lead in front of an outside library's message.
pub fn with_lead(lead: &str, detail: &str) -> (text: String)
    ensures
        text@ == lead@ + detail@,
        starts_with(text@, lead@),
{
    let text = String::from_str(lead).concat(detail);
    assert(text@.subrange(0, lead@.len() as int) =~= lead@);
    text
}

} // verus!
