//! The document container library, seen through contracts.
//!
//! A parsed document stays a value of the container library. What the policy
//! engine needs to know of it is named here: the payload of each stream
//! object, the entries of the dictionaries, the filters and the decoded
//! payload of each stream, and what the document refers to. An object
//! counts as what it is itself: a reference to a stream is no stream. Each
//! executable function in this file is a single call into the container
//! library whose contract is stated, not proved; the lemmas are proved.

use crate::codec::deflated;
use lopdf::{Document, Object};
use vstd::prelude::*;
use vstd::string::*;

verus! {

/// A parsed document of the container library, opaque to the verifier.
#[verifier::external_type_specification]
#[verifier::external_body]
pub struct ExDocument(lopdf::Document);

/// The error of the container library, opaque to the verifier.
#[verifier::external_type_specification]
#[verifier::external_body]
pub struct ExContainerError(lopdf::Error);

/// A value of the container library, as it stands in a dictionary or a
/// list, opaque to the verifier.
#[verifier::external_type_specification]
#[verifier::external_body]
pub struct ExObject(lopdf::Object);

/// The I/O error of the standard library, opaque to the verifier.
#[verifier::external_type_specification]
#[verifier::external_body]
pub struct ExWriteError(std::io::Error);

/// The payload of every object of a document that is a stream, by object
/// identifier.
pub uninterp spec fn stream_payloads(doc: Document) -> Map<(u32, u16), Seq<u8>>;

/// The identifiers of the objects that a document holds, streams or not.
pub uninterp spec fn held_ids(doc: Document) -> Set<(u32, u16)>;

/// The entries whose value is a name, in the dictionary of every object
/// that is a dictionary or a stream, by object identifier and key.
pub uninterp spec fn name_entries(doc: Document) -> Map<((u32, u16), Seq<u8>), Seq<u8>>;

/// The entries whose value is an integer, in the same dictionaries.
pub uninterp spec fn integer_entries(doc: Document) -> Map<((u32, u16), Seq<u8>), i64>;

/// The value under every key of the same dictionaries.
pub uninterp spec fn entry_values(doc: Document) -> Map<((u32, u16), Seq<u8>), Object>;

/// The items of every value of the same dictionaries that is a list.
pub uninterp spec fn entry_lists(doc: Document) -> Map<((u32, u16), Seq<u8>), Seq<Object>>;

/// Whether a value is the null object.
pub uninterp spec fn is_null_object(value: Object) -> bool;

/// The keys that the same dictionaries hold, whatever their value.
pub open spec fn entry_keys(doc: Document) -> Set<((u32, u16), Seq<u8>)> {
    entry_values(doc).dom()
}

/// The filters of every stream that declares a name or a list of names, in
/// decoding order.
pub uninterp spec fn filter_lists(doc: Document) -> Map<(u32, u16), Seq<Seq<u8>>>;

/// The payload of every stream with its declared filters inverted, where
/// the container library can invert them.
pub uninterp spec fn decoded_payloads(doc: Document) -> Map<(u32, u16), Seq<u8>>;

/// The identifiers that a document refers to, from its trailer on: what a
/// traversal of the references collects.
pub uninterp spec fn referenced_ids(doc: Document) -> Set<(u32, u16)>;

/// The bytes that the writer makes of a document, if it can write it.
pub uninterp spec fn written_bytes(doc: Document) -> Option<Seq<u8>>;

/// The key under which a dictionary declares its type.
pub open spec fn type_key() -> Seq<u8> {
    "Type".spec_bytes()
}

/// The key under which a stream declares its subtype.
pub open spec fn subtype_key() -> Seq<u8> {
    "Subtype".spec_bytes()
}

/// The key under which a stream declares its filters.
pub open spec fn filter_key() -> Seq<u8> {
    "Filter".spec_bytes()
}

/// The key under which a stream declares the parameters of its filters.
pub open spec fn decode_parms_key() -> Seq<u8> {
    "DecodeParms".spec_bytes()
}

/// The key under which a stream declares the length of its payload.
pub open spec fn length_key() -> Seq<u8> {
    "Length".spec_bytes()
}

/// The key under which an image declares its width.
pub open spec fn width_key() -> Seq<u8> {
    "Width".spec_bytes()
}

/// The key under which an image declares its height.
pub open spec fn height_key() -> Seq<u8> {
    "Height".spec_bytes()
}

/// The key under which an image declares its bits per component.
pub open spec fn bits_key() -> Seq<u8> {
    "BitsPerComponent".spec_bytes()
}

/// The key under which an image declares its colour space.
pub open spec fn color_space_key() -> Seq<u8> {
    "ColorSpace".spec_bytes()
}

/// The bytes that every written document begins with.
pub open spec fn document_header() -> Seq<u8> {
    seq![0x25u8, 0x50u8, 0x44u8, 0x46u8, 0x2du8]
}

/// Whether bytes begin with the document header.
pub open spec fn has_document_header(bytes: Seq<u8>) -> bool {
    bytes.len() >= 5 && bytes.subrange(0, 5) == document_header()
}

/// The declared type name of every object of a document that has one: the
/// name under the type key of its dictionary.
pub open spec fn declared_types(doc: Document) -> Map<(u32, u16), Seq<u8>> {
    Map::new(
        |id: (u32, u16)| name_entries(doc).contains_key((id, type_key())),
        |id: (u32, u16)| name_entries(doc)[(id, type_key())],
    )
}

/// What the dictionary of an object holds under a key: the name, if the
/// value is a name; the integer, if it is an integer; the value itself, if
/// the key is there at all; and its items, if the value is a list.
pub open spec fn entry_at(doc: Document, id: (u32, u16), key: Seq<u8>) -> (
    Option<Seq<u8>>,
    Option<i64>,
    Option<Object>,
    Option<Seq<Object>>,
) {
    (
        name_entries(doc).get((id, key)),
        integer_entries(doc).get((id, key)),
        entry_values(doc).get((id, key)),
        entry_lists(doc).get((id, key)),
    )
}

/// What a dictionary holds under a key that is not there.
pub open spec fn no_entry() -> (Option<Seq<u8>>, Option<i64>, Option<Object>, Option<Seq<Object>>) {
    (None, None, None, None)
}

/// The name of the deflate filter.
pub open spec fn flate_name() -> Seq<u8> {
    "FlateDecode".spec_bytes()
}

/// What a document holds of a stream besides its dictionary: the payload
/// and the list of filters.
pub open spec fn stream_at(doc: Document, id: (u32, u16)) -> (Option<Seq<u8>>, Option<Seq<Seq<u8>>>) {
    (stream_payloads(doc).get(id), filter_lists(doc).get(id))
}

/// Two documents whose dictionaries agree but for one place hold the same
/// under every other key of every object.
pub proof fn lemma_wrote_entry(before: Document, after: Document, id: (u32, u16), key: Seq<u8>)
    requires
        name_entries(after).remove((id, key)) =~= name_entries(before).remove((id, key)),
        integer_entries(after).remove((id, key)) =~= integer_entries(before).remove((id, key)),
        entry_values(after).remove((id, key)) =~= entry_values(before).remove((id, key)),
        entry_lists(after).remove((id, key)) =~= entry_lists(before).remove((id, key)),
    ensures
        forall|other: (u32, u16), k: Seq<u8>|
            (other != id || k != key) ==> #[trigger] entry_at(after, other, k) == entry_at(before, other, k),
{
    let place = (id, key);
    assert forall|other: (u32, u16), k: Seq<u8>| (other != id || k != key) implies #[trigger] entry_at(
        after,
        other,
        k,
    ) == entry_at(before, other, k) by {
        assert(name_entries(after).remove(place).get((other, k)) == name_entries(after).get((other, k)));
        assert(name_entries(before).remove(place).get((other, k)) == name_entries(before).get((other, k)));
        assert(integer_entries(after).remove(place).get((other, k)) == integer_entries(after).get((other, k)));
        assert(integer_entries(before).remove(place).get((other, k)) == integer_entries(before).get((other, k)));
        assert(entry_values(after).remove(place).get((other, k)) == entry_values(after).get((other, k)));
        assert(entry_values(before).remove(place).get((other, k)) == entry_values(before).get((other, k)));
        assert(entry_lists(after).remove(place).get((other, k)) == entry_lists(after).get((other, k)));
        assert(entry_lists(before).remove(place).get((other, k)) == entry_lists(before).get((other, k)));
    }
}

/// The order of object identifiers: by object number, then by generation.
pub open spec fn id_before(first: (u32, u16), second: (u32, u16)) -> bool {
    first.0 < second.0 || (first.0 == second.0 && first.1 < second.1)
}

/// The margin by which a deflated payload has to be shorter for the
/// container library to take it.
pub const COMPACTION_MARGIN: usize = 19;

/// No stream of `after` is new or longer than it was in `before`.
pub open spec fn no_growth(
    before: Map<(u32, u16), Seq<u8>>,
    after: Map<(u32, u16), Seq<u8>>,
) -> bool {
    forall|id: (u32, u16)| #[trigger]
        after.contains_key(id) ==> before.contains_key(id) && after[id].len() <= before[id].len()
}

/// Every declared type of `after` was declared, with the same name, in `before`.
pub open spec fn types_kept(
    before: Map<(u32, u16), Seq<u8>>,
    after: Map<(u32, u16), Seq<u8>>,
) -> bool {
    forall|id: (u32, u16)| #[trigger]
        after.contains_key(id) ==> before.contains_key(id) && after[id] == before[id]
}

/// Every payload of `after` is the payload it was in `before`, or the
/// deflate stream of it at maximum effort where that is shorter by more
/// than the margin.
pub open spec fn compacted(before: Map<(u32, u16), Seq<u8>>, after: Map<(u32, u16), Seq<u8>>) -> bool {
    forall|id: (u32, u16)| #[trigger]
        after.contains_key(id) ==> before.contains_key(id) && (after[id] == before[id] || (deflated(
            before[id],
            9,
        ) == Some(after[id]) && after[id].len() + COMPACTION_MARGIN < before[id].len()))
}

/// Whether a stream has another payload in `after` than in `before`.
pub open spec fn was_compacted(before: Document, after: Document, id: (u32, u16)) -> bool {
    stream_payloads(before).contains_key(id) && stream_payloads(after).contains_key(id) && stream_payloads(
        after,
    )[id] != stream_payloads(before)[id]
}

/// Every key of a map is among the referenced identifiers.
pub open spec fn all_referenced(entries: Map<(u32, u16), Seq<u8>>, referenced: Set<(u32, u16)>) -> bool {
    forall|id: (u32, u16)| #[trigger] entries.contains_key(id) ==> referenced.contains(id)
}

/// No payload is empty.
pub open spec fn no_empty_payload(payloads: Map<(u32, u16), Seq<u8>>) -> bool {
    forall|id: (u32, u16)| #[trigger] payloads.contains_key(id) ==> payloads[id].len() > 0
}

/// The streams whose payload is empty.
pub open spec fn empty_streams(payloads: Map<(u32, u16), Seq<u8>>) -> Set<(u32, u16)> {
    Set::new(|id: (u32, u16)| payloads.contains_key(id) && payloads[id].len() == 0)
}

/// The declared type of an object is the name under the type key of its
/// dictionary.
pub proof fn lemma_declared_type(doc: Document, id: (u32, u16))
    ensures
        declared_types(doc).get(id) == entry_at(doc, id, type_key()).0,
        declared_types(doc).contains_key(id) == name_entries(doc).contains_key((id, type_key())),
        declared_types(doc).contains_key(id) ==> declared_types(doc)[id] == name_entries(doc)[(id, type_key())],
{
    assert(declared_types(doc).dom().contains(id) == name_entries(doc).dom().contains((id, type_key())));
}

/// Two documents whose dictionaries hold the same names under the type key
/// declare the same types.
pub proof fn lemma_same_types(before: Document, after: Document)
    requires
        forall|id: (u32, u16)| #[trigger]
            entry_at(after, id, type_key()).0 == entry_at(before, id, type_key()).0,
    ensures
        declared_types(after) == declared_types(before),
{
    assert forall|id: (u32, u16)| #[trigger]
        declared_types(after).dom().contains(id) == declared_types(before).dom().contains(id) by {
        lemma_declared_type(after, id);
        lemma_declared_type(before, id);
        assert(entry_at(after, id, type_key()).0 == entry_at(before, id, type_key()).0);
    }
    assert forall|id: (u32, u16)| declared_types(after).dom().contains(id) implies #[trigger] declared_types(
        after,
    )[id] == declared_types(before)[id] by {
        lemma_declared_type(after, id);
        lemma_declared_type(before, id);
        assert(entry_at(after, id, type_key()).0 == entry_at(before, id, type_key()).0);
    }
    assert(declared_types(after).dom() =~= declared_types(before).dom());
    assert(declared_types(after) =~= declared_types(before));
}

/// The keys of the dictionary entries are told apart by their length and
/// their first byte.
pub proof fn lemma_keys_differ()
    ensures
        type_key().len() == 4,
        width_key().len() == 5,
        filter_key().len() == 6 && filter_key()[0] == 70,
        length_key().len() == 6 && length_key()[0] == 76,
        height_key().len() == 6 && height_key()[0] == 72,
        subtype_key().len() == 7,
        color_space_key().len() == 10,
        decode_parms_key().len() == 11,
        bits_key().len() == 16,
{
    broadcast use vstd::utf8::is_ascii_chars_encode_utf8;

    reveal_strlit("Type");
    reveal_strlit("Width");
    reveal_strlit("Filter");
    reveal_strlit("Length");
    reveal_strlit("Height");
    reveal_strlit("Subtype");
    reveal_strlit("ColorSpace");
    reveal_strlit("DecodeParms");
    reveal_strlit("BitsPerComponent");
    assert(vstd::utf8::is_ascii_chars("Type"@));
    assert(vstd::utf8::is_ascii_chars("Width"@));
    assert(vstd::utf8::is_ascii_chars("Filter"@));
    assert(vstd::utf8::is_ascii_chars("Length"@));
    assert(vstd::utf8::is_ascii_chars("Height"@));
    assert(vstd::utf8::is_ascii_chars("Subtype"@));
    assert(vstd::utf8::is_ascii_chars("ColorSpace"@));
    assert(vstd::utf8::is_ascii_chars("DecodeParms"@));
    assert(vstd::utf8::is_ascii_chars("BitsPerComponent"@));
    assert("Filter"@[0] == 'F');
    assert("Length"@[0] == 'L');
    assert("Height"@[0] == 'H');
}

/// Growth is ruled out across two steps if it is ruled out in each.
pub proof fn lemma_no_growth_chains(
    first: Map<(u32, u16), Seq<u8>>,
    second: Map<(u32, u16), Seq<u8>>,
    third: Map<(u32, u16), Seq<u8>>,
)
    requires
        no_growth(first, second),
        no_growth(second, third),
    ensures
        no_growth(first, third),
{
    assert forall|id: (u32, u16)| #[trigger] third.contains_key(id) implies first.contains_key(id)
        && third[id].len() <= first[id].len() by {
        assert(second.contains_key(id));
    }
}

/// A part of a map neither grows a payload nor changes a declared type.
pub proof fn lemma_part_is_kept(whole: Map<(u32, u16), Seq<u8>>, part: Map<(u32, u16), Seq<u8>>)
    requires
        part.submap_of(whole),
    ensures
        no_growth(whole, part),
        types_kept(whole, part),
{
    assert forall|id: (u32, u16)| #[trigger] part.contains_key(id) implies whole.contains_key(id)
        && part[id] == whole[id] by {
        assert(part.dom().contains(id));
    }
}

/// `Document::load_mem`: parses a byte buffer. Larger inputs are parsed on
/// several threads, and which copy of an object that the input holds twice
/// ends up in the document may depend on their timing; nothing is claimed
/// of the outcome.
#[verifier::external_body]
pub(crate) fn parse_document(bytes: &[u8]) -> (parsed: Result<Document, lopdf::Error>) {
    Document::load_mem(bytes)
}

/// `Display` of the container library's error: its message, of which nothing
/// is claimed.
#[verifier::external_body]
pub(crate) fn container_error_text(error: &lopdf::Error) -> (text: String) {
    format!("{}", error)
}

/// `Display` of an I/O error raised while serializing.
#[verifier::external_body]
pub(crate) fn write_error_text(error: &std::io::Error) -> (text: String) {
    format!("{}", error)
}

/// `Document::save_to` into a fresh buffer. The bytes are a function of the
/// document, and the writer begins with the header line.
#[verifier::external_body]
pub(crate) fn serialize_document(doc: &mut Document) -> (written: Result<Vec<u8>, std::io::Error>)
    ensures
        match written {
            Ok(bytes) => written_bytes(*old(doc)) == Some(bytes@) && has_document_header(bytes@),
            Err(_) => written_bytes(*old(doc)) is None,
        },
{
    let mut output = Vec::new();
    doc.save_to(&mut output).map(|_| output)
}

/// The keys of `Document::objects`: each object's identifier exactly once,
/// in the map's own order, which is ascending.
#[verifier::external_body]
pub(crate) fn object_ids(doc: &Document) -> (ids: Vec<(u32, u16)>)
    ensures
        ids@.no_duplicates(),
        forall|i: int, j: int| 0 <= i < j < ids@.len() ==> id_before(#[trigger] ids@[i], #[trigger] ids@[j]),
        forall|id: (u32, u16)|
            #![trigger held_ids(*doc).contains(id)]
            ids@.contains(id) <==> held_ids(*doc).contains(id),
        forall|id: (u32, u16)| stream_payloads(*doc).contains_key(id) ==> ids@.contains(id),
        forall|id: (u32, u16), key: Seq<u8>| #[trigger]
            name_entries(*doc).contains_key((id, key)) ==> ids@.contains(id),
{
    doc.objects.keys().copied().collect()
}

/// A copy of `Stream::content` of an entry of `Document::objects`, or `None`
/// where the entry is no stream. A buffer never holds more bytes than the
/// largest signed 64-bit number.
#[verifier::external_body]
pub(crate) fn stream_payload(doc: &Document, id: (u32, u16)) -> (payload: Option<Vec<u8>>)
    ensures
        payload is Some <==> stream_payloads(*doc).contains_key(id),
        payload matches Some(bytes) ==> bytes@ == stream_payloads(*doc)[id] && bytes@.len() <= i64::MAX,
{
    match doc.objects.get(&id) {
        Some(Object::Stream(stream)) => Some(stream.content.clone()),
        _ => None,
    }
}

/// `Dictionary::get` on the dictionary of an entry of `Document::objects`
/// that is a dictionary or a stream: the value under `key` where it is a
/// name.
#[verifier::external_body]
pub(crate) fn name_entry(doc: &Document, id: (u32, u16), key: &[u8]) -> (value: Option<Vec<u8>>)
    ensures
        value is Some <==> name_entries(*doc).contains_key((id, key@)),
        value matches Some(name) ==> name@ == name_entries(*doc)[(id, key@)],
{
    let dict = match doc.objects.get(&id) {
        Some(Object::Dictionary(dict)) => dict,
        Some(Object::Stream(stream)) => &stream.dict,
        _ => return None,
    };
    match dict.get(key) {
        Ok(Object::Name(name)) => Some(name.clone()),
        _ => None,
    }
}

/// `Dictionary::get` on the same dictionaries: the value under `key` where
/// it is an integer.
#[verifier::external_body]
pub(crate) fn integer_entry(doc: &Document, id: (u32, u16), key: &[u8]) -> (value: Option<i64>)
    ensures
        value == integer_entries(*doc).get((id, key@)),
{
    let dict = match doc.objects.get(&id) {
        Some(Object::Dictionary(dict)) => dict,
        Some(Object::Stream(stream)) => &stream.dict,
        _ => return None,
    };
    match dict.get(key) {
        Ok(Object::Integer(number)) => Some(*number),
        _ => None,
    }
}

/// `Dictionary::has` on the same dictionaries.
#[verifier::external_body]
pub(crate) fn has_entry(doc: &Document, id: (u32, u16), key: &[u8]) -> (present: bool)
    ensures
        present == entry_values(*doc).contains_key((id, key@)),
{
    match doc.objects.get(&id) {
        Some(Object::Dictionary(dict)) => dict.has(key),
        Some(Object::Stream(stream)) => stream.dict.has(key),
        _ => false,
    }
}

/// `Stream::filters`: the names of a stream's filters in decoding order, or
/// `None` where the entry is no stream, declares no filter or declares
/// something else than names.
#[verifier::external_body]
pub(crate) fn filter_names(doc: &Document, id: (u32, u16)) -> (names: Option<Vec<Vec<u8>>>)
    ensures
        names is Some <==> filter_lists(*doc).contains_key(id),
        names matches Some(list) ==> list@.len() == filter_lists(*doc)[id].len() && forall|k: int|
            0 <= k < list@.len() ==> (#[trigger] list@[k])@ == filter_lists(*doc)[id][k],
{
    match doc.objects.get(&id) {
        Some(Object::Stream(stream)) => {
            stream.filters().ok().map(|names| names.into_iter().map(|name| name.to_vec()).collect())
        },
        _ => None,
    }
}

/// `Stream::decompressed_content`: the payload with the declared filters
/// inverted, or `None` where the entry is no stream or the container
/// library cannot invert them.
#[verifier::external_body]
pub(crate) fn decoded_payload(doc: &Document, id: (u32, u16)) -> (decoded: Option<Vec<u8>>)
    ensures
        decoded is Some <==> decoded_payloads(*doc).contains_key(id),
        decoded matches Some(bytes) ==> bytes@ == decoded_payloads(*doc)[id],
{
    match doc.objects.get(&id) {
        Some(Object::Stream(stream)) => stream.decompressed_content().ok(),
        _ => None,
    }
}

/// `Stream::set_content`: replaces the payload of a stream and sets its
/// declared length to the length of the new payload. Nothing else changes,
/// but that a reference which stood under the length key is gone.
#[verifier::external_body]
pub(crate) fn set_stream_payload(doc: &mut Document, id: (u32, u16), payload: Vec<u8>)
    requires
        stream_payloads(*old(doc)).contains_key(id),
        payload@.len() <= i64::MAX,
    ensures
        held_ids(*final(doc)) == held_ids(*old(doc)),
        stream_payloads(*final(doc)) == stream_payloads(*old(doc)).insert(id, payload@),
        integer_entries(*final(doc)) == integer_entries(*old(doc)).insert(
            (id, length_key()),
            payload@.len() as i64,
        ),
        name_entries(*final(doc)) == name_entries(*old(doc)).remove((id, length_key())),
        entry_values(*final(doc)).contains_key((id, length_key())),
        entry_values(*final(doc)).remove((id, length_key())) == entry_values(*old(doc)).remove(
            (id, length_key()),
        ),
        entry_lists(*final(doc)) == entry_lists(*old(doc)).remove((id, length_key())),
        filter_lists(*final(doc)) == filter_lists(*old(doc)),
        referenced_ids(*final(doc)).subset_of(referenced_ids(*old(doc))),
{
    if let Some(Object::Stream(stream)) = doc.objects.get_mut(&id) {
        stream.set_content(payload);
    }
}

/// `Dictionary::set` on a stream's dictionary with a name value. The entry
/// under the key is that name now. Nothing else changes, but that a
/// reference which stood under the key is gone.
#[verifier::external_body]
pub(crate) fn set_name_entry(doc: &mut Document, id: (u32, u16), key: &[u8], value: &[u8])
    requires
        stream_payloads(*old(doc)).contains_key(id),
    ensures
        held_ids(*final(doc)) == held_ids(*old(doc)),
        stream_payloads(*final(doc)) == stream_payloads(*old(doc)),
        name_entries(*final(doc)) == name_entries(*old(doc)).insert((id, key@), value@),
        integer_entries(*final(doc)) == integer_entries(*old(doc)).remove((id, key@)),
        entry_values(*final(doc)).contains_key((id, key@)),
        entry_values(*final(doc)).remove((id, key@)) == entry_values(*old(doc)).remove((id, key@)),
        entry_lists(*final(doc)) == entry_lists(*old(doc)).remove((id, key@)),
        key@ == filter_key() ==> filter_lists(*final(doc)) == filter_lists(*old(doc)).insert(id, seq![value@]),
        key@ != filter_key() ==> filter_lists(*final(doc)) == filter_lists(*old(doc)),
        referenced_ids(*final(doc)).subset_of(referenced_ids(*old(doc))),
{
    if let Some(Object::Stream(stream)) = doc.objects.get_mut(&id) {
        stream.dict.set(key.to_vec(), Object::Name(value.to_vec()));
    }
}

/// `Dictionary::set` on a stream's dictionary with a list of names. Under
/// the filter key the list is the stream's filters now. Nothing else
/// changes, but that a reference which stood under the key is gone.
#[verifier::external_body]
pub(crate) fn set_name_list_entry(doc: &mut Document, id: (u32, u16), key: &[u8], values: &Vec<Vec<u8>>)
    requires
        stream_payloads(*old(doc)).contains_key(id),
    ensures
        held_ids(*final(doc)) == held_ids(*old(doc)),
        stream_payloads(*final(doc)) == stream_payloads(*old(doc)),
        name_entries(*final(doc)) == name_entries(*old(doc)).remove((id, key@)),
        integer_entries(*final(doc)) == integer_entries(*old(doc)).remove((id, key@)),
        entry_values(*final(doc)).contains_key((id, key@)),
        entry_values(*final(doc)).remove((id, key@)) == entry_values(*old(doc)).remove((id, key@)),
        entry_lists(*final(doc)).remove((id, key@)) == entry_lists(*old(doc)).remove((id, key@)),
        key@ == filter_key() ==> filter_lists(*final(doc)) == filter_lists(*old(doc)).insert(
            id,
            Seq::new(values@.len(), |k: int| values@[k]@),
        ),
        key@ != filter_key() ==> filter_lists(*final(doc)) == filter_lists(*old(doc)),
        referenced_ids(*final(doc)).subset_of(referenced_ids(*old(doc))),
{
    if let Some(Object::Stream(stream)) = doc.objects.get_mut(&id) {
        stream.dict.set(key.to_vec(), Object::Array(values.iter().cloned().map(Object::Name).collect()));
    }
}

/// `Dictionary::set` on a stream's dictionary with an integer value. The
/// entry under the key is that integer now. Nothing else changes, but that
/// a reference which stood under the key is gone.
#[verifier::external_body]
pub(crate) fn set_integer_entry(doc: &mut Document, id: (u32, u16), key: &[u8], value: i64)
    requires
        stream_payloads(*old(doc)).contains_key(id),
    ensures
        held_ids(*final(doc)) == held_ids(*old(doc)),
        stream_payloads(*final(doc)) == stream_payloads(*old(doc)),
        integer_entries(*final(doc)) == integer_entries(*old(doc)).insert((id, key@), value),
        name_entries(*final(doc)) == name_entries(*old(doc)).remove((id, key@)),
        entry_values(*final(doc)).contains_key((id, key@)),
        entry_values(*final(doc)).remove((id, key@)) == entry_values(*old(doc)).remove((id, key@)),
        entry_lists(*final(doc)) == entry_lists(*old(doc)).remove((id, key@)),
        key@ != filter_key() ==> filter_lists(*final(doc)) == filter_lists(*old(doc)),
        referenced_ids(*final(doc)).subset_of(referenced_ids(*old(doc))),
{
    if let Some(Object::Stream(stream)) = doc.objects.get_mut(&id) {
        stream.dict.set(key.to_vec(), Object::Integer(value));
    }
}

/// `Dictionary::remove` on a stream's dictionary. The key is gone. Nothing
/// else changes, but that a reference which stood under the key is gone.
#[verifier::external_body]
pub(crate) fn remove_entry(doc: &mut Document, id: (u32, u16), key: &[u8])
    requires
        stream_payloads(*old(doc)).contains_key(id),
    ensures
        held_ids(*final(doc)) == held_ids(*old(doc)),
        stream_payloads(*final(doc)) == stream_payloads(*old(doc)),
        name_entries(*final(doc)) == name_entries(*old(doc)).remove((id, key@)),
        integer_entries(*final(doc)) == integer_entries(*old(doc)).remove((id, key@)),
        entry_values(*final(doc)) == entry_values(*old(doc)).remove((id, key@)),
        entry_lists(*final(doc)) == entry_lists(*old(doc)).remove((id, key@)),
        key@ != filter_key() ==> filter_lists(*final(doc)) == filter_lists(*old(doc)),
        referenced_ids(*final(doc)).subset_of(referenced_ids(*old(doc))),
{
    if let Some(Object::Stream(stream)) = doc.objects.get_mut(&id) {
        stream.dict.remove(key);
    }
}

/// `Dictionary::get` on a stream's dictionary: a copy of the value under
/// `key`, where the key is there.
#[verifier::external_body]
pub(crate) fn entry_value(doc: &Document, id: (u32, u16), key: &[u8]) -> (value: Option<Object>)
    requires
        stream_payloads(*doc).contains_key(id),
    ensures
        value == entry_values(*doc).get((id, key@)),
{
    match doc.objects.get(&id) {
        Some(Object::Stream(stream)) => stream.dict.get(key).ok().cloned(),
        _ => None,
    }
}

/// `Object::as_array` on the value under `key` of a stream's dictionary: a
/// copy of its items, where the value is a list.
#[verifier::external_body]
pub(crate) fn entry_items(doc: &Document, id: (u32, u16), key: &[u8]) -> (items: Option<Vec<Object>>)
    requires
        stream_payloads(*doc).contains_key(id),
    ensures
        items is Some <==> entry_lists(*doc).contains_key((id, key@)),
        items matches Some(list) ==> list@ == entry_lists(*doc)[(id, key@)],
{
    match doc.objects.get(&id) {
        Some(Object::Stream(stream)) => match stream.dict.get(key) {
            Ok(value) => value.as_array().ok().cloned(),
            Err(_) => None,
        },
        _ => None,
    }
}

/// `Object::clone`: the copy is the same value.
#[verifier::external_body]
pub(crate) fn copy_object(object: &Object) -> (copy: Object)
    ensures
        copy == *object,
{
    object.clone()
}

/// `Object::Null`, the null object.
#[verifier::external_body]
pub(crate) fn null_object() -> (object: Object)
    ensures
        is_null_object(object),
{
    Object::Null
}

/// Whether a value is the null object or stands under a key already, by
/// itself or as an item of the list there.
pub open spec fn is_null_or_held(doc: Document, place: ((u32, u16), Seq<u8>), value: Object) -> bool {
    ||| is_null_object(value)
    ||| entry_values(doc).get(place) == Some(value)
    ||| entry_lists(doc).contains_key(place) && entry_lists(doc)[place].contains(value)
}

/// `Dictionary::set` on a stream's dictionary with a list of values, each
/// of them null or a value that stood under the key before. The entry
/// under the key is that list now. Nothing else changes, and since the
/// items are null or were there, the document refers to nothing new.
#[verifier::external_body]
pub(crate) fn set_list_entry(doc: &mut Document, id: (u32, u16), key: &[u8], items: Vec<Object>)
    requires
        stream_payloads(*old(doc)).contains_key(id),
        key@ != filter_key(),
        forall|k: int| 0 <= k < items@.len() ==> is_null_or_held(*old(doc), (id, key@), #[trigger] items@[k]),
    ensures
        held_ids(*final(doc)) == held_ids(*old(doc)),
        stream_payloads(*final(doc)) == stream_payloads(*old(doc)),
        name_entries(*final(doc)) == name_entries(*old(doc)).remove((id, key@)),
        integer_entries(*final(doc)) == integer_entries(*old(doc)).remove((id, key@)),
        entry_values(*final(doc)).contains_key((id, key@)),
        entry_values(*final(doc)).remove((id, key@)) == entry_values(*old(doc)).remove((id, key@)),
        entry_lists(*final(doc)) == entry_lists(*old(doc)).insert((id, key@), items@),
        filter_lists(*final(doc)) == filter_lists(*old(doc)),
        referenced_ids(*final(doc)).subset_of(referenced_ids(*old(doc))),
{
    if let Some(Object::Stream(stream)) = doc.objects.get_mut(&id) {
        stream.dict.set(key.to_vec(), Object::Array(items));
    }
}

/// Removes one entry of `Document::objects`: that object is gone with its
/// dictionary, the others are as they were, and the document refers to
/// nothing new.
#[verifier::external_body]
pub(crate) fn remove_object(doc: &mut Document, id: (u32, u16))
    ensures
        held_ids(*final(doc)) == held_ids(*old(doc)).remove(id),
        stream_payloads(*final(doc)) == stream_payloads(*old(doc)).remove(id),
        forall|other: (u32, u16), key: Seq<u8>|
            #![trigger entry_at(*final(doc), other, key)]
            entry_at(*final(doc), other, key) == if other == id {
                no_entry()
            } else {
                entry_at(*old(doc), other, key)
            },
        filter_lists(*final(doc)) == filter_lists(*old(doc)).remove(id),
        referenced_ids(*final(doc)).subset_of(referenced_ids(*old(doc))),
{
    doc.objects.remove(&id);
}

/// `Document::compress`: deflates streams in place, at maximum effort,
/// where that shortens them by more than the margin. A stream that it
/// deflates had no filter entry, and declares the deflate filter and the new
/// length afterwards; no other
/// entry of any dictionary changes. It adds and removes no object, touches
/// no declared type, and adds no reference.
#[verifier::external_body]
pub(crate) fn compact_streams(doc: &mut Document)
    ensures
        held_ids(*final(doc)) == held_ids(*old(doc)),
        stream_payloads(*final(doc)).dom() == stream_payloads(*old(doc)).dom(),
        compacted(stream_payloads(*old(doc)), stream_payloads(*final(doc))),
        forall|id: (u32, u16), key: Seq<u8>|
            #![trigger entry_at(*final(doc), id, key)]
            entry_at(*final(doc), id, key) == entry_at(*old(doc), id, key) || (was_compacted(
                *old(doc),
                *final(doc),
                id,
            ) && (key == filter_key() || key == length_key())),
        forall|id: (u32, u16)| #[trigger]
            was_compacted(*old(doc), *final(doc), id) ==> !entry_values(*old(doc)).contains_key(
                (id, filter_key()),
            ) && name_entries(*final(doc)).get((id, filter_key())) == Some(flate_name()) && integer_entries(
                *final(doc),
            ).get((id, length_key())) == Some(stream_payloads(*final(doc))[id].len() as i64),
        declared_types(*final(doc)) == declared_types(*old(doc)),
        referenced_ids(*final(doc)).subset_of(referenced_ids(*old(doc))),
{
    doc.compress();
}

/// `Document::prune_objects`: drops exactly the objects that nothing
/// reachable from the trailer refers to. The objects that stay are as they
/// were, and so is what the document refers to.
#[verifier::external_body]
pub(crate) fn prune_unreferenced(doc: &mut Document)
    ensures
        held_ids(*final(doc)) == held_ids(*old(doc)).intersect(referenced_ids(*old(doc))),
        stream_payloads(*final(doc)) == stream_payloads(*old(doc)).restrict(referenced_ids(*old(doc))),
        forall|id: (u32, u16), key: Seq<u8>|
            #![trigger entry_at(*final(doc), id, key)]
            entry_at(*final(doc), id, key) == if referenced_ids(*old(doc)).contains(id) {
                entry_at(*old(doc), id, key)
            } else {
                no_entry()
            },
        declared_types(*final(doc)) == declared_types(*old(doc)).restrict(referenced_ids(*old(doc))),
        referenced_ids(*final(doc)) == referenced_ids(*old(doc)),
{
    doc.prune_objects();
}

/// `Document::delete_zero_length_streams`: deletes exactly the streams with
/// an empty payload, together with the references to them. No payload that
/// stays changes, every object that stays holds the names and the integers
/// that it held and declares the type it declared, and the document refers
/// to nothing new. Where no stream is empty, nothing changes.
#[verifier::external_body]
pub(crate) fn delete_empty_streams(doc: &mut Document)
    ensures
        no_empty_payload(stream_payloads(*old(doc))) ==> *final(doc) == *old(doc),
        held_ids(*final(doc)) == held_ids(*old(doc)).difference(empty_streams(stream_payloads(*old(doc)))),
        stream_payloads(*final(doc)) == stream_payloads(*old(doc)).remove_keys(
            empty_streams(stream_payloads(*old(doc))),
        ),
        forall|id: (u32, u16), key: Seq<u8>|
            #![trigger entry_at(*final(doc), id, key)]
            !empty_streams(stream_payloads(*old(doc))).contains(id) ==> entry_at(*final(doc), id, key).0
                == entry_at(*old(doc), id, key).0 && entry_at(*final(doc), id, key).1 == entry_at(
                *old(doc),
                id,
                key,
            ).1,
        declared_types(*final(doc)) == declared_types(*old(doc)).remove_keys(
            empty_streams(stream_payloads(*old(doc))),
        ),
        referenced_ids(*final(doc)).subset_of(referenced_ids(*old(doc))),
{
    doc.delete_zero_length_streams();
}

} // verus!
