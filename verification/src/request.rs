//! The decisions of the upload service: which form field means what, which
//! level a text asks for, whether an upload is a document, which media type
//! a result has, and whether a request may pass.

use crate::quality::{clamp_level, spec_clamp_level, DEFAULT_LEVEL};
use crate::text::{parse_u8, parsed_u8, sniff_media_type, sniffed_media_type};
use vstd::prelude::*;
use vstd::string::*;

verus! {

/// What a field of the upload form carries.
#[derive(Clone, Copy, Debug, PartialEq, Eq, Structural)]
pub enum FieldKind {
    /// The file to compress.
    File,
    /// The compression level.
    Level,
    /// The requested output format.
    Format,
    /// The chosen output file name.
    Filename,
    /// Anything else; it is ignored.
    Unknown,
}

/// Whether a request may pass.
#[derive(Clone, Copy, Debug, PartialEq, Eq, Structural)]
pub enum AuthDecision {
    /// The request passes.
    Allow,
    /// A key was presented and is not the configured one.
    InvalidKey,
    /// A key is configured and none was presented.
    MissingKey,
}

/// The media type of a document.
pub open spec fn spec_document_media_type() -> Seq<char> {
    "application/pdf"@
}

/// What a form field of a given name carries.
pub open spec fn spec_field_kind(name: Seq<char>) -> FieldKind {
    if name == "file"@ || name == "pdf"@ || name == "image"@ {
        FieldKind::File
    } else if name == "compression"@ || name == "quality"@ || name == "level"@ {
        FieldKind::Level
    } else if name == "output_format"@ || name == "format"@ {
        FieldKind::Format
    } else if name == "output_filename"@ || name == "filename"@ {
        FieldKind::Filename
    } else {
        FieldKind::Unknown
    }
}

/// The level that a text asks for: the number it spells, or the default
/// where it spells none, brought into the honoured range.
pub open spec fn spec_requested_level(text: Seq<char>) -> u8 {
    match parsed_u8(text) {
        Some(level) => spec_clamp_level(level),
        None => spec_clamp_level(DEFAULT_LEVEL),
    }
}

/// Whether `data` begins with `prefix`.
pub open spec fn spec_begins_with(data: Seq<u8>, prefix: Seq<u8>) -> bool {
    prefix.len() <= data.len() && data.subrange(0, prefix.len() as int) == prefix
}

/// Whether an upload is a document: by the media type that its leading
/// bytes announce, and where they announce none, by the document header.
pub open spec fn spec_is_document(data: Seq<u8>) -> bool {
    match sniffed_media_type(data) {
        Some(media_type) => media_type == spec_document_media_type(),
        None => spec_begins_with(data, "%PDF".spec_bytes()),
    }
}

/// The media type of an image with a given file extension.
pub open spec fn spec_image_media_type(extension: Seq<char>) -> Seq<char> {
    if extension == "jpg"@ || extension == "jpeg"@ {
        "image/jpeg"@
    } else if extension == "png"@ {
        "image/png"@
    } else if extension == "webp"@ {
        "image/webp"@
    } else {
        "application/octet-stream"@
    }
}

/// The key that a header value presents: what follows `Bearer `, or the
/// whole value where it does not begin so.
pub open spec fn spec_presented_key(value: Seq<char>) -> Seq<char> {
    if value.len() >= 7 && value.subrange(0, 7) == "Bearer "@ {
        value.subrange(7, value.len() as int)
    } else {
        value
    }
}

/// Whether a path is open to everyone.
pub open spec fn spec_is_public_path(path: Seq<char>) -> bool {
    path == "/health"@ || path == "/llm.txt"@
}

/// Whether a request may pass: always on a public path and where no key, or
/// an empty one, is configured; otherwise only with the configured key.
pub open spec fn spec_authorize(
    path: Seq<char>,
    configured: Option<Seq<char>>,
    presented: Option<Seq<char>>,
) -> AuthDecision {
    if spec_is_public_path(path) {
        AuthDecision::Allow
    } else {
        match configured {
            Some(key) if key.len() > 0 => match presented {
                Some(value) => if spec_presented_key(value) == key {
                    AuthDecision::Allow
                } else {
                    AuthDecision::InvalidKey
                },
                None => AuthDecision::MissingKey,
            },
            _ => AuthDecision::Allow,
        }
    }
}

/// The view of an optional text.
pub open spec fn spec_text(text: Option<&str>) -> Option<Seq<char>> {
    match text {
        Some(t) => Some(t@),
        None => None,
    }
}

/// Whether two texts are the same.
pub fn same_text(left: &str, right: &str) -> (same: bool)
    ensures
        same == (left@ == right@),
{
    String::from_str(left) == String::from_str(right)
}

/// Tells the fields of the upload form apart by their names.
pub fn field_kind(name: &str) -> (kind: FieldKind)
    ensures
        kind == spec_field_kind(name@),
{
    if same_text(name, "file") || same_text(name, "pdf") || same_text(name, "image") {
        FieldKind::File
    } else if same_text(name, "compression") || same_text(name, "quality") || same_text(name, "level") {
        FieldKind::Level
    } else if same_text(name, "output_format") || same_text(name, "format") {
        FieldKind::Format
    } else if same_text(name, "output_filename") || same_text(name, "filename") {
        FieldKind::Filename
    } else {
        FieldKind::Unknown
    }
}

/// Reads the compression level off the text of a form field.
pub fn requested_level(text: &str) -> (level: u8)
    ensures
        level == spec_requested_level(text@),
{
    match parse_u8(text) {
        Some(level) => clamp_level(level),
        None => clamp_level(DEFAULT_LEVEL),
    }
}

/// Whether `data` begins with `prefix`.
pub fn begins_with(data: &[u8], prefix: &[u8]) -> (begins: bool)
    ensures
        begins == spec_begins_with(data@, prefix@),
{
    if prefix.len() > data.len() {
        return false;
    }
    let mut i: usize = 0;
    while i < prefix.len()
        invariant
            prefix@.len() <= data@.len(),
            i <= prefix@.len(),
            forall|k: int| 0 <= k < i ==> data@[k] == prefix@[k],
        decreases prefix@.len() - i,
    {
        if data[i] != prefix[i] {
            assert(data@.subrange(0, prefix@.len() as int)[i as int] != prefix@[i as int]);
            return false;
        }
        i = i + 1;
    }
    assert(data@.subrange(0, prefix@.len() as int) =~= prefix@);
    true
}

/// Whether an upload is a document rather than an image.
pub fn is_document(data: &[u8]) -> (document: bool)
    ensures
        document == spec_is_document(data@),
{
    match sniff_media_type(data) {
        Some(media_type) => same_text(media_type.as_str(), "application/pdf"),
        None => begins_with(data, "%PDF".as_bytes()),
    }
}

/// The media type of an image with a given file extension.
pub fn image_media_type(extension: &str) -> (media_type: &'static str)
    ensures
        media_type@ == spec_image_media_type(extension@),
{
    if same_text(extension, "jpg") || same_text(extension, "jpeg") {
        "image/jpeg"
    } else if same_text(extension, "png") {
        "image/png"
    } else if same_text(extension, "webp") {
        "image/webp"
    } else {
        "application/octet-stream"
    }
}

/// The key that a header value presents.
pub fn presented_key(value: &str) -> (key: String)
    ensures
        key@ == spec_presented_key(value@),
{
    let count: usize = value.unicode_len();
    if count >= 7 && same_text(value.substring_char(0, 7), "Bearer ") {
        String::from_str(value.substring_char(7, count))
    } else {
        String::from_str(value)
    }
}

/// Decides whether a request may pass, from its path, the configured key
/// and the header value that presents a key.
pub fn authorize(path: &str, configured: Option<&str>, presented: Option<&str>) -> (decision: AuthDecision)
    ensures
        decision == spec_authorize(path@, spec_text(configured), spec_text(presented)),
{
    if same_text(path, "/health") || same_text(path, "/llm.txt") {
        return AuthDecision::Allow;
    }
    let key = match configured {
        Some(key) => key,
        None => {
            return AuthDecision::Allow;
        },
    };
    if key.unicode_len() == 0 {
        return AuthDecision::Allow;
    }
    match presented {
        Some(value) => {
            if same_text(presented_key(value).as_str(), key) {
                AuthDecision::Allow
            } else {
                AuthDecision::InvalidKey
            }
        },
        None => AuthDecision::MissingKey,
    }
}

} // verus!
