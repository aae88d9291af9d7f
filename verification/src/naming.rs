//! Texts that front ends show and file names that they derive: sizes for
//! people, output names, and the sanitizing of a name that a caller chose.

use crate::text::{char_is_alphanumeric, char_is_whitespace, is_alphanumeric, is_whitespace, push_char};
use vstd::prelude::*;
use vstd::string::*;
use vstd::utf8::encode_utf8;

verus! {

/// The longest sanitized name, in bytes.
pub const MAX_NAME_BYTES: usize = 255;

/// The characters of a text, in a vector.
pub fn chars_of(text: &str) -> (chars: Vec<char>)
    ensures
        chars@ == text@,
{
    let count: usize = text.unicode_len();
    let mut chars: Vec<char> = Vec::new();
    let mut i: usize = 0;
    while i < count
        invariant
            count == text@.len(),
            i <= count,
            chars@ == text@.subrange(0, i as int),
        decreases count - i,
    {
        chars.push(text.get_char(i));
        assert(chars@ =~= text@.subrange(0, i + 1));
        i = i + 1;
    }
    assert(text@.subrange(0, count as int) =~= text@);
    chars
}

/// The text that a vector of characters spells.
pub fn text_of(chars: &[char]) -> (text: String)
    ensures
        text@ == chars@,
{
    let mut text = String::new();
    let mut i: usize = 0;
    while i < chars.len()
        invariant
            i <= chars@.len(),
            text@ == chars@.subrange(0, i as int),
        decreases chars@.len() - i,
    {
        push_char(&mut text, chars[i]);
        assert(text@ =~= chars@.subrange(0, i + 1));
        i = i + 1;
    }
    assert(chars@.subrange(0, chars@.len() as int) =~= chars@);
    text
}

/// The decimal digit for a value below ten.
pub open spec fn spec_digit(value: nat) -> char {
    if value == 0 {
        '0'
    } else if value == 1 {
        '1'
    } else if value == 2 {
        '2'
    } else if value == 3 {
        '3'
    } else if value == 4 {
        '4'
    } else if value == 5 {
        '5'
    } else if value == 6 {
        '6'
    } else if value == 7 {
        '7'
    } else if value == 8 {
        '8'
    } else {
        '9'
    }
}

/// The decimal numeral of a number, without leading zeros.
pub open spec fn spec_decimal(value: nat) -> Seq<char>
    decreases value,
{
    if value < 10 {
        seq![spec_digit(value)]
    } else {
        spec_decimal(value / 10).push(spec_digit(value % 10))
    }
}

/// The decimal digit for a value below ten.
fn digit(value: u8) -> (c: char)
    requires
        value < 10,
    ensures
        c == spec_digit(value as nat),
{
    if value == 0 {
        '0'
    } else if value == 1 {
        '1'
    } else if value == 2 {
        '2'
    } else if value == 3 {
        '3'
    } else if value == 4 {
        '4'
    } else if value == 5 {
        '5'
    } else if value == 6 {
        '6'
    } else if value == 7 {
        '7'
    } else if value == 8 {
        '8'
    } else {
        '9'
    }
}

/// Appends the decimal numeral of a number to a text.
pub fn push_decimal(text: &mut String, value: u128)
    ensures
        final(text)@ == old(text)@ + spec_decimal(value as nat),
{
    let mut digits: Vec<char> = Vec::new();
    let mut rest: u128 = value;
    while rest >= 10
        invariant
            spec_decimal(value as nat) == spec_decimal(rest as nat) + digits@.reverse(),
        decreases rest,
    {
        let ghost before = digits@;
        digits.push(digit((rest % 10) as u8));
        proof {
            assert(digits@.reverse() =~= seq![spec_digit((rest % 10) as nat)] + before.reverse());
            assert(spec_decimal(rest as nat) == spec_decimal((rest / 10) as nat).push(
                spec_digit((rest % 10) as nat),
            ));
            assert(spec_decimal((rest / 10) as nat).push(spec_digit((rest % 10) as nat)) + before.reverse()
                =~= spec_decimal((rest / 10) as nat) + digits@.reverse());
        }
        rest = rest / 10;
    }
    push_char(text, digit(rest as u8));
    let ghost lead = text@;
    let mut i: usize = digits.len();
    while i > 0
        invariant
            i <= digits@.len(),
            lead == old(text)@.push(spec_digit(rest as nat)),
            text@ == lead + digits@.reverse().subrange(0, digits@.len() - i),
        decreases i,
    {
        i = i - 1;
        push_char(text, digits[i]);
        assert(text@ =~= lead + digits@.reverse().subrange(0, digits@.len() - i));
    }
    assert(digits@.reverse().subrange(0, digits@.len() as int) =~= digits@.reverse());
    assert(text@ =~= old(text)@ + (spec_decimal(rest as nat) + digits@.reverse()));
}

/// The index of the unit that a size is shown in: bytes below 1024, then
/// kilobytes, megabytes and, from 1024 megabytes on, gigabytes.
pub open spec fn spec_unit_index(bytes: u64) -> nat {
    if bytes < 1024 {
        0
    } else if bytes < 1048576 {
        1
    } else if bytes < 1073741824 {
        2
    } else {
        3
    }
}

/// How many bytes one unit is.
pub open spec fn spec_unit_size(index: nat) -> nat {
    if index == 0 {
        1
    } else if index == 1 {
        1024
    } else if index == 2 {
        1048576
    } else {
        1073741824
    }
}

/// The name of a unit.
pub open spec fn spec_unit_name(index: nat) -> Seq<char> {
    if index == 0 {
        " B"@
    } else if index == 1 {
        " KB"@
    } else if index == 2 {
        " MB"@
    } else {
        " GB"@
    }
}

/// The quotient of two numbers, rounded to the nearest whole number, a tie
/// going to the even one.
pub open spec fn spec_round_half_even(numerator: nat, denominator: nat) -> nat {
    let quotient = numerator / denominator;
    let remainder = numerator % denominator;
    if 2 * remainder > denominator || (2 * remainder == denominator && quotient % 2 == 1) {
        quotient + 1
    } else {
        quotient
    }
}

/// The distance between neighbouring values that a binary float with a
/// 53-bit significand can hold, around `bytes`.
pub open spec fn spec_float_spacing(bytes: u64) -> nat {
    if bytes < 0x20_0000_0000_0000 {
        1
    } else if bytes < 0x40_0000_0000_0000 {
        2
    } else if bytes < 0x80_0000_0000_0000 {
        4
    } else if bytes < 0x100_0000_0000_0000 {
        8
    } else if bytes < 0x200_0000_0000_0000 {
        16
    } else if bytes < 0x400_0000_0000_0000 {
        32
    } else if bytes < 0x800_0000_0000_0000 {
        64
    } else if bytes < 0x1000_0000_0000_0000 {
        128
    } else if bytes < 0x2000_0000_0000_0000 {
        256
    } else if bytes < 0x4000_0000_0000_0000 {
        512
    } else if bytes < 0x8000_0000_0000_0000 {
        1024
    } else {
        2048
    }
}

/// A size as a binary float with a 53-bit significand holds it.
pub open spec fn spec_as_float(bytes: u64) -> nat {
    spec_round_half_even(bytes as nat, spec_float_spacing(bytes)) * spec_float_spacing(bytes)
}

/// A size in tenths of its unit, rounded to the nearest tenth.
pub open spec fn spec_tenths(bytes: u64) -> nat {
    spec_round_half_even(spec_as_float(bytes) * 10, spec_unit_size(spec_unit_index(bytes)))
}

/// A size for people: whole bytes below 1024, otherwise one decimal place
/// in the largest unit that fits, up to gigabytes.
pub open spec fn spec_file_size_text(bytes: u64) -> Seq<char> {
    if bytes < 1024 {
        spec_decimal(bytes as nat) + " B"@
    } else {
        spec_decimal(spec_tenths(bytes) / 10) + seq!['.'] + spec_decimal(spec_tenths(bytes) % 10)
            + spec_unit_name(spec_unit_index(bytes))
    }
}

/// Divides and rounds to the nearest whole number, a tie going to the even
/// one.
fn round_half_even(numerator: u128, denominator: u128) -> (rounded: u128)
    requires
        0 < denominator <= 0x4000_0000,
        numerator <= 0x1_0000_0000_0000_0000 * 16,
    ensures
        rounded == spec_round_half_even(numerator as nat, denominator as nat),
        rounded <= numerator,
{
    let quotient: u128 = numerator / denominator;
    let remainder: u128 = numerator % denominator;
    assert(quotient <= numerator) by (nonlinear_arith)
        requires
            quotient == numerator / denominator,
            denominator > 0,
    ;
    if 2 * remainder > denominator || (2 * remainder == denominator && quotient % 2 == 1) {
        assert(quotient + 1 <= numerator) by (nonlinear_arith)
            requires
                quotient == numerator / denominator,
                remainder == numerator % denominator,
                2 * remainder >= denominator,
                denominator > 0,
        ;
        quotient + 1
    } else {
        quotient
    }
}

/// The distance between neighbouring float values around a size.
fn float_spacing(bytes: u64) -> (spacing: u128)
    ensures
        spacing == spec_float_spacing(bytes),
        1 <= spacing <= 2048,
{
    if bytes < 0x20_0000_0000_0000 {
        1
    } else if bytes < 0x40_0000_0000_0000 {
        2
    } else if bytes < 0x80_0000_0000_0000 {
        4
    } else if bytes < 0x100_0000_0000_0000 {
        8
    } else if bytes < 0x200_0000_0000_0000 {
        16
    } else if bytes < 0x400_0000_0000_0000 {
        32
    } else if bytes < 0x800_0000_0000_0000 {
        64
    } else if bytes < 0x1000_0000_0000_0000 {
        128
    } else if bytes < 0x2000_0000_0000_0000 {
        256
    } else if bytes < 0x4000_0000_0000_0000 {
        512
    } else if bytes < 0x8000_0000_0000_0000 {
        1024
    } else {
        2048
    }
}

/// Formats a size in bytes for people: `999 B`, `1.5 KB`, `5.0 MB`,
/// `2.0 GB`. The value is the size as a binary float holds it, divided by
/// the unit and rounded to one decimal place.
pub fn format_file_size(bytes: u64) -> (text: String)
    ensures
        text@ == spec_file_size_text(bytes),
{
    let mut text = String::new();
    if bytes < 1024 {
        push_decimal(&mut text, bytes as u128);
        text.append(" B");
        assert(text@ =~= spec_file_size_text(bytes));
        return text;
    }
    let unit: u128 = if bytes < 1048576 {
        1024
    } else if bytes < 1073741824 {
        1048576
    } else {
        1073741824
    };
    let spacing: u128 = float_spacing(bytes);
    let steps: u128 = round_half_even(bytes as u128, spacing);
    assert(steps * spacing <= 0x1_0000_0000_0000_0000 + 2048) by (nonlinear_arith)
        requires
            steps == spec_round_half_even(bytes as nat, spacing as nat),
            1 <= spacing <= 2048,
            bytes < 0x1_0000_0000_0000_0000,
    ;
    let as_float: u128 = steps * spacing;
    let tenths: u128 = round_half_even(as_float * 10, unit);
    push_decimal(&mut text, tenths / 10);
    push_char(&mut text, '.');
    push_decimal(&mut text, tenths % 10);
    if bytes < 1048576 {
        text.append(" KB");
    } else if bytes < 1073741824 {
        text.append(" MB");
    } else {
        text.append(" GB");
    }
    assert(text@ =~= spec_file_size_text(bytes));
    text
}

/// The position of the last full stop of a text, if it has one.
pub open spec fn spec_last_dot(chars: Seq<char>) -> Option<int>
    decreases chars.len(),
{
    if chars.len() == 0 {
        None
    } else if chars.last() == '.' {
        Some(chars.len() - 1)
    } else {
        spec_last_dot(chars.drop_last())
    }
}

/// A name without its extension: everything before the last full stop, or
/// the whole name where there is none.
pub open spec fn spec_stem(chars: Seq<char>) -> Seq<char> {
    match spec_last_dot(chars) {
        Some(position) => chars.subrange(0, position),
        None => chars,
    }
}

/// The extension of a name: everything behind the last full stop.
pub open spec fn spec_extension_of(chars: Seq<char>) -> Option<Seq<char>> {
    match spec_last_dot(chars) {
        Some(position) => Some(chars.subrange(position + 1, chars.len() as int)),
        None => None,
    }
}

/// A text without the white space at its front.
pub open spec fn spec_trim_front(chars: Seq<char>) -> Seq<char>
    decreases chars.len(),
{
    if chars.len() > 0 && is_whitespace(chars.first()) {
        spec_trim_front(chars.drop_first())
    } else {
        chars
    }
}

/// A text without the white space at its end.
pub open spec fn spec_trim_back(chars: Seq<char>) -> Seq<char>
    decreases chars.len(),
{
    if chars.len() > 0 && is_whitespace(chars.last()) {
        spec_trim_back(chars.drop_last())
    } else {
        chars
    }
}

/// A text without the white space at either end.
pub open spec fn spec_trim(chars: Seq<char>) -> Seq<char> {
    spec_trim_back(spec_trim_front(chars))
}

/// Whether a character may stand in a sanitized name: a letter, a digit, a
/// hyphen, an underscore or a space.
pub open spec fn spec_allowed(c: char) -> bool {
    is_alphanumeric(c) || c == '-' || c == '_' || c == ' '
}

/// The allowed characters of a text, in order.
pub open spec fn spec_keep_allowed(chars: Seq<char>) -> Seq<char>
    decreases chars.len(),
{
    if chars.len() == 0 {
        chars
    } else if spec_allowed(chars.last()) {
        spec_keep_allowed(chars.drop_last()).push(chars.last())
    } else {
        spec_keep_allowed(chars.drop_last())
    }
}

/// The name that sanitizing arrives at, before its length is judged.
pub open spec fn spec_sanitized(name: Seq<char>) -> Seq<char> {
    spec_keep_allowed(spec_trim(spec_stem(name)))
}

/// Finds the last full stop of a text.
fn last_dot(chars: &Vec<char>) -> (position: Option<usize>)
    ensures
        match position {
            Some(p) => spec_last_dot(chars@) == Some(p as int) && p < chars@.len(),
            None => spec_last_dot(chars@) is None,
        },
{
    let mut end: usize = chars.len();
    assert(chars@.subrange(0, end as int) =~= chars@);
    while end > 0
        invariant
            end <= chars@.len(),
            spec_last_dot(chars@) == spec_last_dot(chars@.subrange(0, end as int)),
        decreases end,
    {
        let ghost prefix = chars@.subrange(0, end as int);
        if chars[end - 1] == '.' {
            assert(prefix.last() == '.');
            return Some(end - 1);
        }
        assert(prefix.drop_last() =~= chars@.subrange(0, end - 1));
        end = end - 1;
    }
    None
}

/// Finds where the text before `limit` begins and ends once white space at
/// both ends is dropped.
fn trim_bounds(chars: &Vec<char>, limit: usize) -> (bounds: (usize, usize))
    requires
        limit <= chars@.len(),
    ensures
        bounds.0 <= bounds.1 <= limit,
        chars@.subrange(bounds.0 as int, bounds.1 as int) == spec_trim(chars@.subrange(0, limit as int)),
{
    let ghost whole = chars@.subrange(0, limit as int);
    let mut start: usize = 0;
    while start < limit && char_is_whitespace(chars[start])
        invariant
            start <= limit <= chars@.len(),
            whole == chars@.subrange(0, limit as int),
            spec_trim_front(whole) == spec_trim_front(chars@.subrange(start as int, limit as int)),
        decreases limit - start,
    {
        let ghost rest = chars@.subrange(start as int, limit as int);
        assert(rest.first() == chars@[start as int]);
        assert(rest.drop_first() =~= chars@.subrange(start + 1, limit as int));
        start = start + 1;
    }
    let ghost front = chars@.subrange(start as int, limit as int);
    assert(spec_trim_front(whole) == front) by {
        if start < limit {
            assert(front.first() == chars@[start as int]);
        }
    }
    let mut end: usize = limit;
    while end > start && char_is_whitespace(chars[end - 1])
        invariant
            start <= end <= limit <= chars@.len(),
            spec_trim_back(front) == spec_trim_back(chars@.subrange(start as int, end as int)),
        decreases end - start,
    {
        let ghost rest = chars@.subrange(start as int, end as int);
        assert(rest.last() == chars@[end - 1]);
        assert(rest.drop_last() =~= chars@.subrange(start as int, end - 1));
        end = end - 1;
    }
    assert(spec_trim_back(front) == chars@.subrange(start as int, end as int)) by {
        let rest = chars@.subrange(start as int, end as int);
        if end > start {
            assert(rest.last() == chars@[end - 1]);
        }
    }
    (start, end)
}

/// Whether a character may stand in a sanitized name.
fn allowed(c: char) -> (ok: bool)
    ensures
        ok == spec_allowed(c),
{
    char_is_alphanumeric(c) || c == '-' || c == '_' || c == ' '
}

/// The name of a file without its extension.
pub fn file_stem(name: &str) -> (stem: String)
    ensures
        stem@ == spec_stem(name@),
{
    let chars = chars_of(name);
    match last_dot(&chars) {
        Some(position) => {
            let stem = text_of(vstd::slice::slice_subrange(chars.as_slice(), 0, position));
            stem
        },
        None => text_of(chars.as_slice()),
    }
}

/// The extension of a file name, if it has one.
pub fn file_extension(name: &str) -> (found: Option<String>)
    ensures
        match found {
            Some(text) => spec_extension_of(name@) == Some(text@),
            None => spec_extension_of(name@) is None,
        },
{
    let chars = chars_of(name);
    let count: usize = chars.len();
    match last_dot(&chars) {
        Some(position) => Some(text_of(vstd::slice::slice_subrange(chars.as_slice(), position + 1, count))),
        None => None,
    }
}

/// The name of an output file: the stem of the input name, a suffix, a full
/// stop and the extension.
pub open spec fn spec_derived_name(input: Seq<char>, suffix: Seq<char>, extension: Seq<char>) -> Seq<char> {
    spec_stem(input) + suffix + seq!['.'] + extension
}

/// Derives the name of an output file from the name of the input file.
pub fn derived_name(input: &str, suffix: &str, extension: &str) -> (name: String)
    ensures
        name@ == spec_derived_name(input@, suffix@, extension@),
{
    let mut name = file_stem(input);
    name.append(suffix);
    push_char(&mut name, '.');
    name.append(extension);
    name
}

/// The name under which a result is handed out: the sanitized name that the
/// caller chose, else the name of the upload with `-compressed` behind its
/// stem, else `compressed`; each with the extension of the output format.
pub open spec fn spec_download_name(
    chosen: Option<Seq<char>>,
    uploaded: Option<Seq<char>>,
    extension: Seq<char>,
) -> Seq<char> {
    match chosen {
        Some(name) => spec_sanitized(name) + seq!['.'] + extension,
        None => match uploaded {
            Some(name) => spec_derived_name(name, "-compressed"@, extension),
            None => "compressed"@ + seq!['.'] + extension,
        },
    }
}

/// Settles the name under which a result is handed out. A chosen name that
/// does not survive sanitizing is refused with the sanitizer's message.
pub fn download_name(chosen: Option<&str>, uploaded: Option<&str>, extension: &str) -> (result: Result<
    String,
    String,
>)
    ensures
        match result {
            Ok(name) => name@ == spec_download_name(spec_name(chosen), spec_name(uploaded), extension@) && (
            chosen matches Some(c) ==> spec_sanitized(c@).len() > 0 && encode_utf8(spec_sanitized(c@)).len()
                <= MAX_NAME_BYTES),
            Err(_) => chosen matches Some(c) && (spec_sanitized(c@).len() == 0 || encode_utf8(
                spec_sanitized(c@),
            ).len() > MAX_NAME_BYTES),
        },
{
    match chosen {
        Some(name) => match sanitize_filename(name) {
            Ok(clean) => {
                let mut full = clean;
                push_char(&mut full, '.');
                full.append(extension);
                Ok(full)
            },
            Err(message) => Err(message),
        },
        None => match uploaded {
            Some(name) => Ok(derived_name(name, "-compressed", extension)),
            None => {
                let mut full = String::from_str("compressed");
                push_char(&mut full, '.');
                full.append(extension);
                Ok(full)
            },
        },
    }
}

/// The view of an optional name.
pub open spec fn spec_name(name: Option<&str>) -> Option<Seq<char>> {
    match name {
        Some(text) => Some(text@),
        None => None,
    }
}

/// Makes a safe file name of a name that a caller chose: the extension is
/// cut off, white space at both ends is dropped, and only letters, digits,
/// hyphens, underscores and spaces are kept. A name of which nothing is
/// left, or more than 255 bytes, is refused.
pub fn sanitize_filename(name: &str) -> (result: Result<String, String>)
    ensures
        match result {
            Ok(clean) => clean@ == spec_sanitized(name@) && clean@.len() > 0 && encode_utf8(clean@).len()
                <= MAX_NAME_BYTES,
            Err(message) => if spec_sanitized(name@).len() == 0 {
                message@
                    == "Invalid output filename: only alphanumeric, hyphens, underscores, and spaces allowed"@
            } else {
                encode_utf8(spec_sanitized(name@)).len() > MAX_NAME_BYTES && message@
                    == "Invalid output filename: maximum 255 characters allowed"@
            },
        },
{
    let chars = chars_of(name);
    let limit: usize = match last_dot(&chars) {
        Some(position) => position,
        None => chars.len(),
    };
    assert(chars@.subrange(0, limit as int) =~= spec_stem(chars@));
    let (start, end) = trim_bounds(&chars, limit);
    let ghost trimmed = chars@.subrange(start as int, end as int);
    let mut clean = String::new();
    let mut i: usize = start;
    assert(trimmed.subrange(0, 0) =~= Seq::<char>::empty());
    while i < end
        invariant
            start <= i <= end <= chars@.len(),
            trimmed == chars@.subrange(start as int, end as int),
            clean@ == spec_keep_allowed(trimmed.subrange(0, i - start)),
        decreases end - i,
    {
        let c = chars[i];
        let ghost prefix = trimmed.subrange(0, i + 1 - start);
        assert(prefix.last() == c);
        assert(prefix.drop_last() =~= trimmed.subrange(0, i - start));
        if allowed(c) {
            push_char(&mut clean, c);
        }
        i = i + 1;
    }
    assert(trimmed.subrange(0, end - start) =~= trimmed);
    if clean.as_str().unicode_len() == 0 {
        return Err(
            String::from_str(
                "Invalid output filename: only alphanumeric, hyphens, underscores, and spaces allowed",
            ),
        );
    }
    if clean.as_str().as_bytes().len() > MAX_NAME_BYTES {
        return Err(String::from_str("Invalid output filename: maximum 255 characters allowed"));
    }
    Ok(clean)
}

} // verus!
