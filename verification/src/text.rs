//! Character and string functions of the standard library that the crate
//! uses and for which no specification is at hand, seen through contracts.

use vstd::prelude::*;

verus! {

/// Whether a character is one of the first 128, the ASCII characters.
pub open spec fn is_ascii(c: char) -> bool {
    (c as u32) < 128
}

/// Whether every character of a text is an ASCII character.
pub open spec fn is_ascii_text(text: Seq<char>) -> bool {
    forall|k: int| 0 <= k < text.len() ==> is_ascii(#[trigger] text[k])
}

/// Whether a character is one of the ten ASCII digits.
pub open spec fn is_ascii_digit(c: char) -> bool {
    '0' <= c && c <= '9'
}

/// Whether a character is an ASCII letter or an ASCII digit.
pub open spec fn is_ascii_alphanumeric(c: char) -> bool {
    ('a' <= c && c <= 'z') || ('A' <= c && c <= 'Z') || is_ascii_digit(c)
}

/// The lowercase form of an ASCII character: a capital letter becomes the
/// small one, every other character stays.
pub open spec fn ascii_lowercased(c: char) -> char {
    if 'A' <= c && c <= 'Z' {
        ((c as u32) + 32) as char
    } else {
        c
    }
}

/// The lowercase form that the standard library gives a text which holds a
/// character beyond ASCII.
pub uninterp spec fn lowercased_beyond_ascii(text: Seq<char>) -> Seq<char>;

/// The lowercase form of a text, as the standard library defines it: in an
/// ASCII text each capital letter becomes the small one.
pub open spec fn lowercased(text: Seq<char>) -> Seq<char> {
    if is_ascii_text(text) {
        Seq::new(text.len(), |k: int| ascii_lowercased(text[k]))
    } else {
        lowercased_beyond_ascii(text)
    }
}

/// Whether a character beyond ASCII is alphabetic or numeric, as the
/// standard library defines it.
pub uninterp spec fn is_alphanumeric_beyond_ascii(c: char) -> bool;

/// Whether a character is alphabetic or numeric, as the standard library
/// defines it: of the ASCII characters, the letters and the digits.
pub open spec fn is_alphanumeric(c: char) -> bool {
    if is_ascii(c) {
        is_ascii_alphanumeric(c)
    } else {
        is_alphanumeric_beyond_ascii(c)
    }
}

/// Whether a character is white space, as the standard library defines it:
/// the characters with the Unicode property of that name.
pub open spec fn is_whitespace(c: char) -> bool {
    let code = c as u32;
    ||| 0x09 <= code <= 0x0D
    ||| code == 0x20
    ||| code == 0x85
    ||| code == 0xA0
    ||| code == 0x1680
    ||| 0x2000 <= code <= 0x200A
    ||| code == 0x2028
    ||| code == 0x2029
    ||| code == 0x202F
    ||| code == 0x205F
    ||| code == 0x3000
}

/// The number that a text of decimal digits spells.
pub open spec fn digits_value(digits: Seq<char>) -> nat
    decreases digits.len(),
{
    if digits.len() == 0 {
        0
    } else {
        (digits_value(digits.drop_last()) * 10 + ((digits.last() as u32) - ('0' as u32))) as nat
    }
}

/// The number that a text spells as an unsigned 8-bit integer, as the
/// standard library reads it: a plus sign may come first, then one ASCII
/// digit or more and nothing else, and the number is at most 255.
pub open spec fn parsed_u8(text: Seq<char>) -> Option<u8> {
    let digits = if text.len() > 0 && text[0] == '+' {
        text.subrange(1, text.len() as int)
    } else {
        text
    };
    if digits.len() > 0 && (forall|k: int| 0 <= k < digits.len() ==> is_ascii_digit(#[trigger] digits[k]))
        && digits_value(digits) <= 255 {
        Some(digits_value(digits) as u8)
    } else {
        None
    }
}

/// The media type that the leading bytes of a file announce.
pub uninterp spec fn sniffed_media_type(bytes: Seq<u8>) -> Option<Seq<char>>;

/// The view of an optional text.
pub open spec fn text_view(text: Option<String>) -> Option<Seq<char>> {
    match text {
        Some(t) => Some(t@),
        None => None,
    }
}

/// `str::parse::<u8>`: the number that the text spells in decimal digits,
/// where it spells one that fits.
#[verifier::external_body]
pub(crate) fn parse_u8(text: &str) -> (number: Option<u8>)
    ensures
        number == parsed_u8(text@),
{
    text.parse::<u8>().ok()
}

/// `infer::get` and `Type::mime_type`: the media type that the file type
/// library reads off the leading bytes.
#[verifier::external_body]
pub(crate) fn sniff_media_type(bytes: &[u8]) -> (media_type: Option<String>)
    ensures
        text_view(media_type) == sniffed_media_type(bytes@),
{
    infer::get(bytes).map(|kind| kind.mime_type().to_string())
}

/// `str::to_lowercase`: in an ASCII text the capital letters become small
/// and nothing else changes; of other texts the result is only named.
#[verifier::external_body]
pub(crate) fn to_lowercase(text: &str) -> (lowered: String)
    ensures
        is_ascii_text(text@) ==> lowered@ == Seq::new(text@.len(), |k: int| ascii_lowercased(text@[k])),
        !is_ascii_text(text@) ==> lowered@ == lowercased_beyond_ascii(text@),
{
    text.to_lowercase()
}

/// `char::is_alphanumeric`: of the ASCII characters, the letters and the
/// digits; of the others the answer is only named.
#[verifier::external_body]
pub(crate) fn char_is_alphanumeric(c: char) -> (yes: bool)
    ensures
        is_ascii(c) ==> yes == is_ascii_alphanumeric(c),
        !is_ascii(c) ==> yes == is_alphanumeric_beyond_ascii(c),
{
    c.is_alphanumeric()
}

/// `char::is_whitespace`: whether the character has the Unicode property
/// of white space.
#[verifier::external_body]
pub(crate) fn char_is_whitespace(c: char) -> (yes: bool)
    ensures
        yes == is_whitespace(c),
{
    c.is_whitespace()
}

/// `String::push`: appends one character.
#[verifier::external_body]
pub(crate) fn push_char(text: &mut String, c: char)
    ensures
        final(text)@ == old(text)@.push(c),
{
    text.push(c);
}

} // verus!
