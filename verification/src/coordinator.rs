//! The coordinator: reads every stream of a document into a unit, has all
//! units recompressed independently of each other, and then writes the
//! accepted replacements back into the document, one after the other.

use crate::classify::{classify, is_image_only, spec_classify, spec_is_image_only};
use crate::codec::bytes_view;
use crate::container::{
    bits_key, color_space_key, copy_object, declared_types, decode_parms_key, decoded_payload,
    decoded_payloads, entry_at, entry_items, entry_keys, entry_lists, entry_value, entry_values, filter_key,
    filter_lists, filter_names, flate_name, has_entry, height_key, held_ids, integer_entries, integer_entry,
    is_null_object, is_null_or_held, lemma_keys_differ, lemma_same_types, lemma_wrote_entry, length_key,
    name_entries, name_entry, no_entry, null_object, object_ids, referenced_ids, remove_entry,
    set_integer_entry, set_list_entry, set_name_entry, set_name_list_entry, set_stream_payload, stream_at,
    stream_payload, stream_payloads, subtype_key, type_key, width_key,
};
use crate::dedup::bytes_equal;
use crate::generic_stream::{compress_generic_stream, spec_generic_outcome};
use crate::image_stream::{compress_image_stream, spec_is_image_outcome};
use crate::model::{
    CompressionSettings, FilterKind, FilterUpdate, DictUpdate, OutcomeView, RecompressionOutcome,
    StreamClassification, StreamUnit,
};
use lopdf::{Document, Object};
use rayon::iter::{IntoParallelRefIterator, ParallelIterator};
use vstd::prelude::*;
use vstd::slice::slice_to_vec;
use vstd::string::*;

verus! {

/// What one pass over the streams of a document did.
#[derive(Clone, Copy, Debug)]
pub struct StreamReport {
    /// How many streams were processed.
    pub streams: usize,
    /// How many of them declare the image subtype.
    pub images: usize,
    /// How many got a new payload.
    pub replaced: usize,
    /// How many bytes the new payloads are shorter, all together.
    pub bytes_saved: u128,
}

/// The names of a list of filters.
pub open spec fn spec_names(names: Seq<Vec<u8>>) -> Seq<Seq<u8>> {
    Seq::new(names.len(), |k: int| names[k]@)
}

/// The view of an optional list of names.
pub open spec fn names_view(names: Option<Vec<Vec<u8>>>) -> Option<Seq<Seq<u8>>> {
    match names {
        Some(list) => Some(spec_names(list@)),
        None => None,
    }
}

/// The name of the image subtype.
pub open spec fn image_name() -> Seq<u8> {
    "Image".spec_bytes()
}

/// The name of the JPEG filter.
pub open spec fn dct_name() -> Seq<u8> {
    "DCTDecode".spec_bytes()
}

/// The name of the device RGB colour space.
pub open spec fn device_rgb_name() -> Seq<u8> {
    "DeviceRGB".spec_bytes()
}

/// The filter kind that a dictionary declares: `present` says whether there
/// is a filter entry at all, `name` is its value where that is a name, and
/// `chain` the list of its filters where it is a name or a list of names.
/// An empty list of filters counts as no filter.
pub open spec fn spec_filter_kind(present: bool, name: Option<Seq<u8>>, chain: Option<Seq<Seq<u8>>>) -> FilterKind {
    if !present || (chain matches Some(list) && list.len() == 0) {
        FilterKind::Absent
    } else {
        match name {
            None => FilterKind::Chain,
            Some(n) => if n == flate_name() {
                FilterKind::Flate
            } else if n == dct_name() {
                FilterKind::Dct
            } else if n == "JPXDecode".spec_bytes() || n == "CCITTFaxDecode".spec_bytes() || n
                == "JBIG2Decode".spec_bytes() {
                FilterKind::ImageOnly
            } else {
                FilterKind::Other
            },
        }
    }
}

/// Whether the fields of a unit, but for its payload, are what the
/// dictionary of the stream says: the subtype, the filter and its list, the
/// presence of filter parameters, the dimensions and the bits per
/// component, and, where the policy reads it, the decoded payload.
pub open spec fn spec_unit_fields(doc: Document, unit: StreamUnit) -> bool {
    let id = unit.id;
    &&& unit.is_image == (name_entries(doc).get((id, subtype_key())) == Some(image_name()))
    &&& names_view(unit.filter_chain) == filter_lists(doc).get(id)
    &&& unit.filter == spec_filter_kind(
        entry_keys(doc).contains((id, filter_key())),
        name_entries(doc).get((id, filter_key())),
        filter_lists(doc).get(id),
    )
    &&& unit.has_decode_parms == entry_keys(doc).contains((id, decode_parms_key()))
    &&& unit.width == integer_entries(doc).get((id, width_key()))
    &&& unit.height == integer_entries(doc).get((id, height_key()))
    &&& unit.bits_per_component == integer_entries(doc).get((id, bits_key()))
    &&& bytes_view(unit.decoded) == if spec_reads_decoded(unit) {
        decoded_payloads(doc).get(id)
    } else {
        None
    }
}

/// Whether the policy reads the container library's decoding of a stream:
/// an image under a named filter other than deflate, or a filtered generic
/// stream that the generic recompressor takes.
pub open spec fn spec_reads_decoded(unit: StreamUnit) -> bool {
    match spec_classify(unit) {
        StreamClassification::Image { .. } => unit.filter == FilterKind::Other || unit.filter
            == FilterKind::ImageOnly,
        StreamClassification::Generic => !(unit.is_image && spec_is_image_only(unit.filter))
            && unit.filter != FilterKind::Absent,
    }
}

/// Whether `outcome` is what is decided for a stream: an image goes to the
/// image recompressor and is kept where that one rejects it; a stream that
/// declares the image subtype but is no usable image is kept if it is under
/// an image-only filter; everything else goes to the generic recompressor.
pub open spec fn spec_is_recompressed(unit: StreamUnit, quality: u8, outcome: OutcomeView) -> bool {
    match spec_classify(unit) {
        StreamClassification::Image { .. } => spec_is_image_outcome(unit, quality, outcome),
        StreamClassification::Generic => outcome == if unit.is_image && spec_is_image_only(unit.filter) {
            OutcomeView::Keep
        } else {
            spec_generic_outcome(unit)
        },
    }
}

/// How many of the first `upto` units declare the image subtype.
pub open spec fn spec_image_count(units: Seq<StreamUnit>, upto: int) -> nat
    decreases upto,
{
    if upto <= 0 {
        0
    } else {
        spec_image_count(units, upto - 1) + if units[upto - 1].is_image {
            1nat
        } else {
            0nat
        }
    }
}

/// How many of the first `upto` outcomes replace the payload.
pub open spec fn spec_replaced_count(outcomes: Seq<RecompressionOutcome>, upto: int) -> nat
    decreases upto,
{
    if upto <= 0 {
        0
    } else {
        spec_replaced_count(outcomes, upto - 1) + if outcomes[upto - 1]@ is Replace {
            1nat
        } else {
            0nat
        }
    }
}

/// How many bytes the first `upto` outcomes save.
pub open spec fn spec_bytes_saved(units: Seq<StreamUnit>, outcomes: Seq<RecompressionOutcome>, upto: int) -> int
    decreases upto,
{
    if upto <= 0 {
        0
    } else {
        spec_bytes_saved(units, outcomes, upto - 1) + outcomes[upto - 1]@.saved(units[upto - 1].content@.len())
    }
}

/// Tells the filter kinds apart by the declared name. An empty list of
/// filters counts as no filter.
pub fn filter_kind(present: bool, name: &Option<Vec<u8>>, chain: &Option<Vec<Vec<u8>>>) -> (kind: FilterKind)
    ensures
        kind == spec_filter_kind(present, bytes_view(*name), names_view(*chain)),
{
    if !present {
        return FilterKind::Absent;
    }
    match chain {
        Some(list) => {
            if list.len() == 0 {
                return FilterKind::Absent;
            }
        },
        None => {},
    }
    match name {
        None => FilterKind::Chain,
        Some(n) => {
            if bytes_equal(n.as_slice(), "FlateDecode".as_bytes()) {
                FilterKind::Flate
            } else if bytes_equal(n.as_slice(), "DCTDecode".as_bytes()) {
                FilterKind::Dct
            } else if bytes_equal(n.as_slice(), "JPXDecode".as_bytes()) || bytes_equal(
                n.as_slice(),
                "CCITTFaxDecode".as_bytes(),
            ) || bytes_equal(n.as_slice(), "JBIG2Decode".as_bytes()) {
                FilterKind::ImageOnly
            } else {
                FilterKind::Other
            }
        },
    }
}

/// Whether the policy reads the container library's decoding of a stream.
pub fn reads_decoded(unit: &StreamUnit) -> (reads: bool)
    ensures
        reads == spec_reads_decoded(*unit),
{
    match classify(unit) {
        StreamClassification::Image { .. } => match unit.filter {
            FilterKind::Other => true,
            FilterKind::ImageOnly => true,
            _ => false,
        },
        StreamClassification::Generic => {
            if unit.is_image && is_image_only(unit.filter) {
                false
            } else {
                match unit.filter {
                    FilterKind::Absent => false,
                    _ => true,
                }
            }
        },
    }
}

/// Reads one stream of a document into a unit. Every field but the payload
/// is read off the dictionary of the stream. The container library is asked
/// to decode the payload only where the policy will read the result.
pub fn read_unit(doc: &Document, id: (u32, u16), content: Vec<u8>) -> (unit: StreamUnit)
    ensures
        unit.id == id,
        unit.content == content,
        spec_unit_fields(*doc, unit),
{
    let subtype = name_entry(doc, id, "Subtype".as_bytes());
    let is_image = match &subtype {
        Some(name) => bytes_equal(name.as_slice(), "Image".as_bytes()),
        None => false,
    };
    let filter_name = name_entry(doc, id, "Filter".as_bytes());
    let filter_chain = filter_names(doc, id);
    proof {
        if filter_chain is Some {
            assert(spec_names(filter_chain->0@) =~= filter_lists(*doc)[id]);
        }
    }
    let filter = filter_kind(has_entry(doc, id, "Filter".as_bytes()), &filter_name, &filter_chain);
    let mut unit = StreamUnit {
        id,
        is_image,
        filter,
        filter_chain,
        has_decode_parms: has_entry(doc, id, "DecodeParms".as_bytes()),
        width: integer_entry(doc, id, "Width".as_bytes()),
        height: integer_entry(doc, id, "Height".as_bytes()),
        bits_per_component: integer_entry(doc, id, "BitsPerComponent".as_bytes()),
        content,
        decoded: None,
    };
    if reads_decoded(&unit) {
        let ghost before = unit;
        unit.decoded = decoded_payload(doc, id);
        assert(spec_classify(unit) == spec_classify(before));
    }
    unit
}

/// Whether `units` holds exactly the streams of a document with these
/// payloads: each stream once, with its payload as stored.
pub open spec fn spec_units_cover(units: Seq<StreamUnit>, payloads: Map<(u32, u16), Seq<u8>>) -> bool {
    &&& forall|i: int|
        0 <= i < units.len() ==> payloads.contains_key((#[trigger] units[i]).id) && units[i].content@
            == payloads[units[i].id]
    &&& forall|i: int, j: int| 0 <= i < j < units.len() ==> units[i].id != units[j].id
    &&& forall|id: (u32, u16)|
        payloads.contains_key(id) ==> exists|i: int| 0 <= i < units.len() && (#[trigger] units[i]).id == id
}

/// Whether the dictionary of an object holds the same under every key in
/// two documents.
pub open spec fn spec_same_entries(before: Document, after: Document, id: (u32, u16)) -> bool {
    forall|key: Seq<u8>| #[trigger] entry_at(after, id, key) == entry_at(before, id, key)
}

/// Whether two documents differ in one stream only: they hold the same
/// streams, the other streams have their payloads and filters, every other
/// dictionary has its entries, no declared type has changed, and nothing
/// new is referred to.
pub open spec fn spec_only_touches(before: Document, after: Document, id: (u32, u16)) -> bool {
    &&& held_ids(after) == held_ids(before)
    &&& stream_payloads(after).dom() == stream_payloads(before).dom()
    &&& forall|other: (u32, u16)| other != id ==> #[trigger] stream_at(after, other) == stream_at(before, other)
    &&& forall|other: (u32, u16), key: Seq<u8>|
        other != id ==> #[trigger] entry_at(after, other, key) == entry_at(before, other, key)
    &&& declared_types(after) == declared_types(before)
    &&& referenced_ids(after).subset_of(referenced_ids(before))
}

/// Whether two documents differ in one entry of one stream's dictionary
/// only, the payloads being the same.
pub open spec fn spec_wrote(before: Document, after: Document, id: (u32, u16), key: Seq<u8>) -> bool {
    &&& held_ids(after) == held_ids(before)
    &&& stream_payloads(after) == stream_payloads(before)
    &&& forall|other: (u32, u16), k: Seq<u8>|
        (other != id || k != key) ==> #[trigger] entry_at(after, other, k) == entry_at(before, other, k)
    &&& forall|other: (u32, u16)| other != id ==> #[trigger] stream_at(after, other) == stream_at(before, other)
    &&& key != filter_key() ==> filter_lists(after) == filter_lists(before)
    &&& referenced_ids(after).subset_of(referenced_ids(before))
}

/// How many slots the filter parameters of a stream with so many filters
/// have: one for each filter, and one where none is declared.
pub open spec fn spec_slots(filters: nat) -> nat {
    if filters == 0 {
        1
    } else {
        filters
    }
}

/// The filter parameters of a stream as a list with one slot for each
/// declared filter: the items of the parameters where they are a list, and
/// otherwise the parameters themselves in every slot, since the container
/// library reads them as standing for each filter alike.
pub open spec fn spec_parameter_slots(doc: Document, id: (u32, u16), filters: nat) -> Seq<Object> {
    let place = (id, decode_parms_key());
    if entry_lists(doc).contains_key(place) {
        entry_lists(doc)[place]
    } else {
        Seq::new(spec_slots(filters), |k: int| entry_values(doc)[place])
    }
}

/// Whether the filter parameters of a stream have made room for one more
/// filter in front: they are a list that begins with the null object and
/// goes on with the slots that the parameters had.
pub open spec fn spec_is_shifted(before: Document, after: Document, id: (u32, u16), filters: nat) -> bool {
    let place = (id, decode_parms_key());
    let slots = spec_parameter_slots(before, id, filters);
    &&& entry_lists(after).contains_key(place)
    &&& entry_lists(after)[place].len() == slots.len() + 1
    &&& is_null_object(entry_lists(after)[place][0])
    &&& entry_lists(after)[place].subrange(1, slots.len() as int + 1) == slots
}

/// What stands under the filter parameters once deflate was put in front
/// of the declared filters: where there were parameters, they have made
/// room for it; where there were none, there are none.
pub open spec fn spec_parameters_follow(before: Document, after: Document, id: (u32, u16), filters: nat) -> bool {
    if entry_values(before).contains_key((id, decode_parms_key())) {
        spec_is_shifted(before, after, id, filters)
    } else {
        entry_at(after, id, decode_parms_key()) == entry_at(before, id, decode_parms_key())
    }
}

/// Whether the dictionary of a stream holds what follows a replacement: the
/// length of the new payload, the filter declaration with its parameters,
/// and where the update asks for them, the colour space and the
/// dimensions. `before` is the document as it was read.
pub open spec fn spec_follows(
    before: Document,
    after: Document,
    unit: StreamUnit,
    payload: Seq<u8>,
    update: DictUpdate,
) -> bool {
    let id = unit.id;
    &&& stream_payloads(after).contains_key(id)
    &&& stream_payloads(after)[id] == payload
    &&& integer_entries(after).get((id, length_key())) == Some(payload.len() as i64)
    &&& match update.filter {
        FilterUpdate::Flate => name_entries(after).get((id, filter_key())) == Some(flate_name())
            && !entry_keys(after).contains((id, decode_parms_key())),
        FilterUpdate::Dct => name_entries(after).get((id, filter_key())) == Some(dct_name())
            && !entry_keys(after).contains((id, decode_parms_key())),
        FilterUpdate::FlateOver => unit.filter_chain matches Some(chain) && filter_lists(after).get(id)
            == Some(spec_flate_over(chain@)) && spec_parameters_follow(before, after, id, chain@.len()),
    }
    &&& update.device_rgb ==> name_entries(after).get((id, color_space_key())) == Some(device_rgb_name())
    &&& update.dimensions matches Some(size) ==> integer_entries(after).get((id, width_key())) == Some(
        size.0 as i64,
    ) && integer_entries(after).get((id, height_key())) == Some(size.1 as i64)
}

/// Whether a key is one that a replacement may write: the keys of the
/// filter, its parameters, the colour space, the dimensions and the length.
pub open spec fn spec_is_replacement_key(key: Seq<u8>) -> bool {
    key == filter_key() || key == decode_parms_key() || key == color_space_key() || key == width_key() || key
        == height_key() || key == length_key()
}

/// Whether the dictionary of a stream holds the same in two documents under
/// every key that no replacement writes.
pub open spec fn spec_rest_kept(before: Document, after: Document, id: (u32, u16)) -> bool {
    forall|key: Seq<u8>|
        !spec_is_replacement_key(key) ==> #[trigger] entry_at(after, id, key) == entry_at(before, id, key)
}

/// Whether no replacement among the first `upto` outcomes is for the object
/// `id`.
pub open spec fn spec_untouched(
    units: Seq<StreamUnit>,
    outcomes: Seq<RecompressionOutcome>,
    upto: int,
    id: (u32, u16),
) -> bool {
    forall|k: int| 0 <= k < upto && k < units.len() && (#[trigger] units[k]).id == id ==> outcomes[k]@ is Keep
}

/// Whether a pass over the streams of a document is the work of a plan:
/// `units` are the streams as the document held them, `outcomes` is what
/// was decided for each of them, every stream has the payload that its
/// outcome names and, where it was replaced, the dictionary entries that
/// follow it. The dictionaries of all other objects are as they were, no
/// declared type has changed, nothing new is referred to, and the report
/// counts what the outcomes say.
pub open spec fn spec_is_pass(
    before: Document,
    after: Document,
    quality: u8,
    units: Seq<StreamUnit>,
    outcomes: Seq<RecompressionOutcome>,
    report: StreamReport,
) -> bool {
    &&& spec_units_cover(units, stream_payloads(before))
    &&& forall|i: int| 0 <= i < units.len() ==> spec_unit_fields(before, #[trigger] units[i])
    &&& outcomes.len() == units.len()
    &&& forall|i: int| 0 <= i < units.len() ==> spec_is_recompressed(units[i], quality, (#[trigger] outcomes[i])@)
    &&& held_ids(after) == held_ids(before)
    &&& stream_payloads(after).dom() == stream_payloads(before).dom()
    &&& forall|i: int|
        0 <= i < units.len() ==> stream_payloads(after)[(#[trigger] units[i]).id]
            == outcomes[i]@.payload_after(stream_payloads(before)[units[i].id])
    &&& forall|i: int|
        0 <= i < units.len() ==> ((#[trigger] outcomes[i])@ matches OutcomeView::Replace { payload, update }
            ==> spec_follows(before, after, units[i], payload, update))
    &&& forall|i: int| 0 <= i < units.len() ==> spec_rest_kept(before, after, (#[trigger] units[i]).id)
    &&& forall|id: (u32, u16)| #[trigger]
        spec_untouched(units, outcomes, units.len() as int, id) ==> spec_same_entries(before, after, id)
    &&& declared_types(after) == declared_types(before)
    &&& referenced_ids(after).subset_of(referenced_ids(before))
    &&& report.streams == units.len()
    &&& report.images == spec_image_count(units, units.len() as int)
    &&& report.replaced == spec_replaced_count(outcomes, units.len() as int)
    &&& report.bytes_saved == spec_bytes_saved(units, outcomes, units.len() as int)
}

/// Reads every stream of a document into a unit: each stream once, with
/// its payload and with what its dictionary says.
pub fn collect_units(doc: &Document) -> (units: Vec<StreamUnit>)
    ensures
        spec_units_cover(units@, stream_payloads(*doc)),
        forall|i: int| 0 <= i < units@.len() ==> spec_unit_fields(*doc, #[trigger] units@[i]),
        forall|i: int| 0 <= i < units@.len() ==> (#[trigger] units@[i]).content@.len() <= i64::MAX,
{
    let ids = object_ids(doc);
    let mut units: Vec<StreamUnit> = Vec::new();
    let mut i: usize = 0;
    while i < ids.len()
        invariant
            i <= ids@.len(),
            ids@.no_duplicates(),
            forall|id: (u32, u16)| stream_payloads(*doc).contains_key(id) ==> ids@.contains(id),
            forall|k: int|
                0 <= k < units@.len() ==> stream_payloads(*doc).contains_key((#[trigger] units@[k]).id)
                    && units@[k].content@ == stream_payloads(*doc)[units@[k].id],
            forall|k: int| 0 <= k < units@.len() ==> spec_unit_fields(*doc, #[trigger] units@[k]),
            forall|k: int| 0 <= k < units@.len() ==> (#[trigger] units@[k]).content@.len() <= i64::MAX,
            forall|k: int|
                0 <= k < units@.len() ==> exists|j: int| 0 <= j < i && ids@[j] == (#[trigger] units@[k]).id,
            forall|k: int, l: int| 0 <= k < l < units@.len() ==> units@[k].id != units@[l].id,
            forall|j: int|
                0 <= j < i && stream_payloads(*doc).contains_key(#[trigger] ids@[j]) ==> exists|k: int|
                    0 <= k < units@.len() && (#[trigger] units@[k]).id == ids@[j],
        decreases ids@.len() - i,
    {
        let id = ids[i];
        let ghost before = units@;
        match stream_payload(doc, id) {
            Some(content) => {
                let unit = read_unit(doc, id, content);
                assert forall|k: int| 0 <= k < before.len() implies (#[trigger] before[k]).id != id by {
                    let j = choose|j: int| 0 <= j < i && ids@[j] == before[k].id;
                    assert(ids@[j] != ids@[i as int]);
                }
                units.push(unit);
                assert(units@[before.len() as int].id == ids@[i as int]);
            },
            None => {},
        }
        assert forall|j: int|
            0 <= j < i + 1 && stream_payloads(*doc).contains_key(#[trigger] ids@[j]) implies exists|k: int|
            0 <= k < units@.len() && (#[trigger] units@[k]).id == ids@[j] by {
            if j < i {
                let k = choose|k: int| 0 <= k < before.len() && (#[trigger] before[k]).id == ids@[j];
                assert(units@[k].id == ids@[j]);
            } else {
                assert(units@[before.len() as int].id == ids@[j]);
            }
        }
        i = i + 1;
    }
    assert forall|id: (u32, u16)| stream_payloads(*doc).contains_key(id) implies exists|k: int|
        0 <= k < units@.len() && (#[trigger] units@[k]).id == id by {
        assert(ids@.contains(id));
        let j = choose|j: int| 0 <= j < ids@.len() && ids@[j] == id;
        assert(stream_payloads(*doc).contains_key(ids@[j]));
    }
    units
}

/// Decides what happens to one stream. The decision reads the unit and
/// nothing else, so units can be processed in any order and side by side.
pub fn recompress_stream(unit: &StreamUnit, quality: u8) -> (outcome: RecompressionOutcome)
    ensures
        spec_is_recompressed(*unit, quality, outcome@),
        outcome@.shrinks(unit.content@.len()),
{
    match classify(unit) {
        StreamClassification::Image { .. } => compress_image_stream(unit, quality),
        StreamClassification::Generic => {
            if unit.is_image && is_image_only(unit.filter) {
                RecompressionOutcome::Keep
            } else {
                compress_generic_stream(unit)
            }
        },
    }
}

/// `par_iter`, `map` and `collect` of the thread pool library: applies
/// `recompress_stream` to every unit on the pool's workers and collects the
/// outcomes in the order of the units.
#[verifier::external_body]
fn recompress_all(units: &Vec<StreamUnit>, quality: u8) -> (outcomes: Vec<RecompressionOutcome>)
    ensures
        outcomes@.len() == units@.len(),
        forall|i: int|
            0 <= i < units@.len() ==> spec_is_recompressed(units@[i], quality, (#[trigger] outcomes@[i])@),
{
    units.par_iter().map(|unit| recompress_stream(unit, quality)).collect()
}

/// No replacement is ever as long as the payload it replaces, and deflate is
/// put in front of declared filters only where those are a known list.
pub proof fn lemma_recompress_never_grows(unit: StreamUnit, quality: u8, outcome: OutcomeView)
    requires
        spec_is_recompressed(unit, quality, outcome),
    ensures
        outcome.shrinks(unit.content@.len()),
        outcome matches OutcomeView::Replace { update, .. } ==> (update.filter == FilterUpdate::FlateOver
            ==> unit.filter_chain is Some),
{
}

/// Totals of one pass, from the units and what was decided for them.
pub fn summarize(units: &Vec<StreamUnit>, outcomes: &Vec<RecompressionOutcome>) -> (report: StreamReport)
    requires
        outcomes@.len() == units@.len(),
        forall|i: int| 0 <= i < units@.len() ==> (#[trigger] outcomes@[i])@.shrinks(units@[i].content@.len()),
    ensures
        report.streams == units@.len(),
        report.images == spec_image_count(units@, units@.len() as int),
        report.replaced == spec_replaced_count(outcomes@, units@.len() as int),
        report.bytes_saved == spec_bytes_saved(units@, outcomes@, units@.len() as int),
        report.images <= report.streams,
        report.replaced <= report.streams,
{
    let mut images: usize = 0;
    let mut replaced: usize = 0;
    let mut bytes_saved: u128 = 0;
    let mut i: usize = 0;
    while i < units.len()
        invariant
            outcomes@.len() == units@.len(),
            forall|k: int|
                0 <= k < units@.len() ==> (#[trigger] outcomes@[k])@.shrinks(units@[k].content@.len()),
            i <= units@.len(),
            images == spec_image_count(units@, i as int),
            replaced == spec_replaced_count(outcomes@, i as int),
            bytes_saved == spec_bytes_saved(units@, outcomes@, i as int),
            images <= i,
            replaced <= i,
            bytes_saved <= i * 0x1_0000_0000_0000_0000,
        decreases units@.len() - i,
    {
        if units[i].is_image {
            images = images + 1;
        }
        assert(outcomes@[i as int]@.shrinks(units@[i as int].content@.len()));
        match &outcomes[i] {
            RecompressionOutcome::Replace { payload, .. } => {
                replaced = replaced + 1;
                let saved: usize = units[i].content.len() - payload.len();
                bytes_saved = bytes_saved + saved as u128;
            },
            RecompressionOutcome::Keep => {},
        }
        i = i + 1;
    }
    StreamReport { streams: units.len(), images, replaced, bytes_saved }
}

/// The filter list that puts deflate in front of a list of declared filters.
pub open spec fn spec_flate_over(chain: Seq<Vec<u8>>) -> Seq<Seq<u8>> {
    Seq::new(chain.len() + 1, |k: int| if k == 0 {
        flate_name()
    } else {
        chain[k - 1]@
    })
}

/// Puts deflate in front of a list of declared filters: the payload is
/// inflated first and then goes through the filters that were declared.
pub fn flate_over(chain: &Vec<Vec<u8>>) -> (names: Vec<Vec<u8>>)
    ensures
        spec_names(names@) == spec_flate_over(chain@),
{
    let mut names: Vec<Vec<u8>> = Vec::new();
    names.push(slice_to_vec("FlateDecode".as_bytes()));
    let mut k: usize = 0;
    while k < chain.len()
        invariant
            k <= chain@.len(),
            names@.len() == k + 1,
            names@[0]@ == flate_name(),
            forall|j: int| 1 <= j <= k ==> (#[trigger] names@[j])@ == chain@[j - 1]@,
        decreases chain@.len() - k,
    {
        names.push(chain[k].clone());
        k = k + 1;
    }
    assert(spec_names(names@) =~= spec_flate_over(chain@));
    names
}

/// A write to one entry of a stream's dictionary, at a key that is not the
/// type key, touches that stream only.
proof fn lemma_wrote_touches_only(before: Document, after: Document, id: (u32, u16), key: Seq<u8>)
    requires
        spec_wrote(before, after, id, key),
        key != type_key(),
    ensures
        spec_only_touches(before, after, id),
{
    assert forall|other: (u32, u16)| #[trigger]
        entry_at(after, other, type_key()).0 == entry_at(before, other, type_key()).0 by {
        assert(entry_at(after, other, type_key()) == entry_at(before, other, type_key()));
    }
    lemma_same_types(before, after);
}

/// What stands under another key of the same dictionary is not changed by
/// a write.
proof fn lemma_wrote_keeps(before: Document, after: Document, id: (u32, u16), key: Seq<u8>, other: Seq<u8>)
    requires
        spec_wrote(before, after, id, key),
        other != key,
    ensures
        entry_at(after, id, other) == entry_at(before, id, other),
{
}

/// Two writes to keys that a replacement may write leave what stands under
/// every other key of the dictionary.
proof fn lemma_rest_chain(
    first: Document,
    second: Document,
    third: Document,
    id: (u32, u16),
    one: Seq<u8>,
    other: Seq<u8>,
)
    requires
        spec_wrote(first, second, id, one),
        spec_wrote(second, third, id, other) || second == third,
        spec_is_replacement_key(one),
        spec_is_replacement_key(other),
    ensures
        spec_rest_kept(first, third, id),
{
    assert forall|key: Seq<u8>| !spec_is_replacement_key(key) implies #[trigger] entry_at(third, id, key)
        == entry_at(first, id, key) by {
        assert(entry_at(second, id, key) == entry_at(first, id, key));
    }
}

/// What two changes in a row leave under the keys that no replacement
/// writes, they leave together.
proof fn lemma_rest_joins(first: Document, second: Document, third: Document, id: (u32, u16))
    requires
        spec_rest_kept(first, second, id),
        spec_rest_kept(second, third, id),
    ensures
        spec_rest_kept(first, third, id),
{
    assert forall|key: Seq<u8>| !spec_is_replacement_key(key) implies #[trigger] entry_at(third, id, key)
        == entry_at(first, id, key) by {
        assert(entry_at(second, id, key) == entry_at(first, id, key));
    }
}

/// A change that touches one stream only leaves every other dictionary as
/// it was, under the keys that no replacement writes as under all others.
proof fn lemma_rest_stays(before: Document, middle: Document, after: Document, touched: (u32, u16), id: (u32, u16))
    requires
        spec_rest_kept(before, middle, id),
        spec_only_touches(middle, after, touched),
        id != touched,
    ensures
        spec_rest_kept(before, after, id),
{
    assert forall|key: Seq<u8>| !spec_is_replacement_key(key) implies #[trigger] entry_at(after, id, key)
        == entry_at(before, id, key) by {
        assert(entry_at(after, id, key) == entry_at(middle, id, key));
        assert(entry_at(middle, id, key) == entry_at(before, id, key));
    }
}

/// Two changes that each touch one stream only touch that stream only.
proof fn lemma_touches_chain(first: Document, second: Document, third: Document, id: (u32, u16))
    requires
        spec_only_touches(first, second, id),
        spec_only_touches(second, third, id),
    ensures
        spec_only_touches(first, third, id),
{
    assert forall|other: (u32, u16)| other != id implies #[trigger] stream_at(third, other) == stream_at(
        first,
        other,
    ) by {
        assert(stream_at(second, other) == stream_at(first, other));
    }
    assert forall|other: (u32, u16), key: Seq<u8>| other != id implies #[trigger] entry_at(third, other, key)
        == entry_at(first, other, key) by {
        assert(entry_at(second, other, key) == entry_at(first, other, key));
    }
}

/// A change that touches one stream only leaves the dictionary of every
/// other object as it was.
proof fn lemma_untouched_is_same(before: Document, after: Document, touched: (u32, u16), id: (u32, u16))
    requires
        spec_only_touches(before, after, touched),
        id != touched,
    ensures
        spec_same_entries(before, after, id),
{
}

/// What follows a replacement in the dictionary of one stream stays when
/// another stream is touched.
proof fn lemma_follows_stays(
    start: Document,
    before: Document,
    after: Document,
    touched: (u32, u16),
    unit: StreamUnit,
    payload: Seq<u8>,
    update: DictUpdate,
)
    requires
        spec_only_touches(before, after, touched),
        unit.id != touched,
        spec_follows(start, before, unit, payload, update),
    ensures
        spec_follows(start, after, unit, payload, update),
{
    let id = unit.id;
    assert(stream_at(after, id) == stream_at(before, id));
    assert(entry_at(after, id, length_key()) == entry_at(before, id, length_key()));
    assert(entry_at(after, id, filter_key()) == entry_at(before, id, filter_key()));
    assert(entry_at(after, id, decode_parms_key()) == entry_at(before, id, decode_parms_key()));
    assert(entry_at(after, id, color_space_key()) == entry_at(before, id, color_space_key()));
    assert(entry_at(after, id, width_key()) == entry_at(before, id, width_key()));
    assert(entry_at(after, id, height_key()) == entry_at(before, id, height_key()));
}

/// What follows a replacement is said of the document as it was read, if
/// the dictionary of the stream was still as it was read when the
/// replacement was written.
proof fn lemma_follows_from(
    start: Document,
    before: Document,
    after: Document,
    unit: StreamUnit,
    payload: Seq<u8>,
    update: DictUpdate,
)
    requires
        spec_same_entries(start, before, unit.id),
        spec_follows(before, after, unit, payload, update),
    ensures
        spec_follows(start, after, unit, payload, update),
{
    assert(entry_at(before, unit.id, decode_parms_key()) == entry_at(start, unit.id, decode_parms_key()));
}

/// Writes a name under a key of a stream's dictionary.
fn write_name(doc: &mut Document, id: (u32, u16), key: &[u8], value: &[u8])
    requires
        stream_payloads(*old(doc)).contains_key(id),
    ensures
        spec_wrote(*old(doc), *final(doc), id, key@),
        name_entries(*final(doc)).get((id, key@)) == Some(value@),
        key@ == filter_key() ==> filter_lists(*final(doc)).get(id) == Some(seq![value@]),
{
    let ghost before = *doc;
    set_name_entry(doc, id, key, value);
    proof {
        lemma_wrote_entry(before, *doc, id, key@);
    }
}

/// Writes an integer under a key of a stream's dictionary that is not the
/// filter key.
fn write_integer(doc: &mut Document, id: (u32, u16), key: &[u8], value: i64)
    requires
        stream_payloads(*old(doc)).contains_key(id),
        key@ != filter_key(),
    ensures
        spec_wrote(*old(doc), *final(doc), id, key@),
        integer_entries(*final(doc)).get((id, key@)) == Some(value),
{
    let ghost before = *doc;
    set_integer_entry(doc, id, key, value);
    proof {
        lemma_wrote_entry(before, *doc, id, key@);
    }
}

/// Takes a key that is not the filter key out of a stream's dictionary.
fn erase_entry(doc: &mut Document, id: (u32, u16), key: &[u8])
    requires
        stream_payloads(*old(doc)).contains_key(id),
        key@ != filter_key(),
    ensures
        spec_wrote(*old(doc), *final(doc), id, key@),
        entry_at(*final(doc), id, key@) == no_entry(),
{
    let ghost before = *doc;
    remove_entry(doc, id, key);
    proof {
        lemma_wrote_entry(before, *doc, id, key@);
    }
}

/// Writes the list of a stream's filters.
fn write_filters(doc: &mut Document, id: (u32, u16), names: &Vec<Vec<u8>>)
    requires
        stream_payloads(*old(doc)).contains_key(id),
    ensures
        spec_wrote(*old(doc), *final(doc), id, filter_key()),
        filter_lists(*final(doc)).get(id) == Some(spec_names(names@)),
{
    let ghost before = *doc;
    set_name_list_entry(doc, id, "Filter".as_bytes(), names);
    proof {
        lemma_wrote_entry(before, *doc, id, filter_key());
        assert(Seq::new(names@.len(), |k: int| names@[k]@) =~= spec_names(names@));
    }
}

/// Makes room in the filter parameters of a stream for one more filter in
/// front: the new list begins with the null object and goes on with the
/// slots that the parameters had. Parameters that are no list stand for
/// every declared filter alike, and get one slot for each.
fn shift_parameters(doc: &mut Document, id: (u32, u16), filters: usize)
    requires
        stream_payloads(*old(doc)).contains_key(id),
        entry_values(*old(doc)).contains_key((id, decode_parms_key())),
    ensures
        spec_wrote(*old(doc), *final(doc), id, decode_parms_key()),
        spec_is_shifted(*old(doc), *final(doc), id, filters as nat),
{
    let ghost start = *doc;
    let ghost place = (id, decode_parms_key());
    let ghost slots = spec_parameter_slots(start, id, filters as nat);
    proof {
        lemma_keys_differ();
    }
    let shifted = match entry_items(doc, id, "DecodeParms".as_bytes()) {
        Some(items) => {
            let mut shifted = items;
            shifted.insert(0, null_object());
            shifted
        },
        None => {
            let mut shifted: Vec<Object> = Vec::new();
            shifted.push(null_object());
            match entry_value(doc, id, "DecodeParms".as_bytes()) {
                Some(value) => {
                    shifted.push(copy_object(&value));
                    let mut made: usize = 1;
                    while made < filters
                        invariant
                            1 <= made,
                            made <= filters || made == 1,
                            shifted@.len() == made + 1,
                            is_null_object(shifted@[0]),
                            forall|k: int| 1 <= k <= made ==> shifted@[k] == value,
                        decreases filters - made,
                    {
                        shifted.push(copy_object(&value));
                        made = made + 1;
                    }
                },
                None => {},
            }
            shifted
        },
    };
    proof {
        assert(shifted@.subrange(1, slots.len() as int + 1) =~= slots);
        assert forall|k: int| 0 <= k < shifted@.len() implies is_null_or_held(
            start,
            place,
            #[trigger] shifted@[k],
        ) by {
            if k > 0 {
                assert(shifted@[k] == slots[k - 1]);
            }
        }
    }
    set_list_entry(doc, id, "DecodeParms".as_bytes(), shifted);
    proof {
        lemma_wrote_entry(start, *doc, id, decode_parms_key());
    }
}

/// Writes the filter declaration that an update names, and settles the
/// filter parameters: they go with a new single filter, and make room for
/// deflate where it is put in front of the declared filters.
fn write_filter_update(doc: &mut Document, unit: &StreamUnit, update: DictUpdate)
    requires
        stream_payloads(*old(doc)).contains_key(unit.id),
        update.filter == FilterUpdate::FlateOver ==> unit.filter_chain is Some,
    ensures
        spec_only_touches(*old(doc), *final(doc), unit.id),
        spec_rest_kept(*old(doc), *final(doc), unit.id),
        stream_payloads(*final(doc)) == stream_payloads(*old(doc)),
        match update.filter {
            FilterUpdate::Flate => name_entries(*final(doc)).get((unit.id, filter_key())) == Some(flate_name())
                && !entry_keys(*final(doc)).contains((unit.id, decode_parms_key())),
            FilterUpdate::Dct => name_entries(*final(doc)).get((unit.id, filter_key())) == Some(dct_name())
                && !entry_keys(*final(doc)).contains((unit.id, decode_parms_key())),
            FilterUpdate::FlateOver => unit.filter_chain matches Some(chain) && filter_lists(*final(doc)).get(
                unit.id,
            ) == Some(spec_flate_over(chain@)) && spec_parameters_follow(
                *old(doc),
                *final(doc),
                unit.id,
                chain@.len(),
            ),
        },
{
    let id = unit.id;
    let ghost start = *doc;
    proof {
        lemma_keys_differ();
    }
    match update.filter {
        FilterUpdate::FlateOver => match &unit.filter_chain {
            Some(chain) => {
                if has_entry(doc, id, "DecodeParms".as_bytes()) {
                    shift_parameters(doc, id, chain.len());
                }
                let ghost shifted = *doc;
                let names = flate_over(chain);
                write_filters(doc, id, &names);
                proof {
                    if entry_values(start).contains_key((id, decode_parms_key())) {
                        lemma_wrote_touches_only(start, shifted, id, decode_parms_key());
                        lemma_rest_chain(start, shifted, *doc, id, decode_parms_key(), filter_key());
                    }
                    lemma_wrote_touches_only(shifted, *doc, id, filter_key());
                    lemma_touches_chain(start, shifted, *doc, id);
                    lemma_wrote_keeps(shifted, *doc, id, filter_key(), decode_parms_key());
                }
            },
            None => {},
        },
        single => {
            match single {
                FilterUpdate::Dct => write_name(doc, id, "Filter".as_bytes(), "DCTDecode".as_bytes()),
                _ => write_name(doc, id, "Filter".as_bytes(), "FlateDecode".as_bytes()),
            }
            let ghost named = *doc;
            erase_entry(doc, id, "DecodeParms".as_bytes());
            proof {
                lemma_wrote_touches_only(start, named, id, filter_key());
                lemma_wrote_touches_only(named, *doc, id, decode_parms_key());
                lemma_touches_chain(start, named, *doc, id);
                lemma_wrote_keeps(named, *doc, id, decode_parms_key(), filter_key());
                lemma_rest_chain(start, named, *doc, id, filter_key(), decode_parms_key());
            }
        },
    }
}

/// Writes the colour space and the dimensions that an update names.
fn write_image_entries(doc: &mut Document, id: (u32, u16), update: DictUpdate)
    requires
        stream_payloads(*old(doc)).contains_key(id),
    ensures
        spec_only_touches(*old(doc), *final(doc), id),
        spec_rest_kept(*old(doc), *final(doc), id),
        stream_payloads(*final(doc)) == stream_payloads(*old(doc)),
        filter_lists(*final(doc)) == filter_lists(*old(doc)),
        entry_at(*final(doc), id, filter_key()) == entry_at(*old(doc), id, filter_key()),
        entry_at(*final(doc), id, decode_parms_key()) == entry_at(*old(doc), id, decode_parms_key()),
        update.device_rgb ==> name_entries(*final(doc)).get((id, color_space_key())) == Some(
            device_rgb_name(),
        ),
        update.dimensions matches Some(size) ==> integer_entries(*final(doc)).get((id, width_key())) == Some(
            size.0 as i64,
        ) && integer_entries(*final(doc)).get((id, height_key())) == Some(size.1 as i64),
{
    let ghost start = *doc;
    proof {
        lemma_keys_differ();
    }
    if update.device_rgb {
        write_name(doc, id, "ColorSpace".as_bytes(), "DeviceRGB".as_bytes());
        proof {
            lemma_wrote_touches_only(start, *doc, id, color_space_key());
            lemma_wrote_keeps(start, *doc, id, color_space_key(), filter_key());
            lemma_wrote_keeps(start, *doc, id, color_space_key(), decode_parms_key());
        }
    }
    let ghost coloured = *doc;
    match update.dimensions {
        Some((width, height)) => {
            write_integer(doc, id, "Width".as_bytes(), width as i64);
            let ghost widened = *doc;
            write_integer(doc, id, "Height".as_bytes(), height as i64);
            proof {
                lemma_wrote_touches_only(coloured, widened, id, width_key());
                lemma_wrote_touches_only(widened, *doc, id, height_key());
                lemma_touches_chain(coloured, widened, *doc, id);
                lemma_wrote_keeps(coloured, widened, id, width_key(), filter_key());
                lemma_wrote_keeps(coloured, widened, id, width_key(), decode_parms_key());
                lemma_wrote_keeps(coloured, widened, id, width_key(), color_space_key());
                lemma_wrote_keeps(widened, *doc, id, height_key(), filter_key());
                lemma_wrote_keeps(widened, *doc, id, height_key(), decode_parms_key());
                lemma_wrote_keeps(widened, *doc, id, height_key(), color_space_key());
                lemma_wrote_keeps(widened, *doc, id, height_key(), width_key());
                lemma_rest_chain(coloured, widened, *doc, id, width_key(), height_key());
            }
        },
        None => {},
    }
    proof {
        if update.device_rgb {
            lemma_touches_chain(start, coloured, *doc, id);
        }
        lemma_rest_joins(start, coloured, *doc, id);
    }
}

/// Writes the new payload of a stream; the container library sets the
/// declared length with it.
fn write_payload(doc: &mut Document, id: (u32, u16), payload: Vec<u8>)
    requires
        stream_payloads(*old(doc)).contains_key(id),
        payload@.len() <= i64::MAX,
    ensures
        spec_only_touches(*old(doc), *final(doc), id),
        stream_payloads(*final(doc)) == stream_payloads(*old(doc)).insert(id, payload@),
        filter_lists(*final(doc)) == filter_lists(*old(doc)),
        integer_entries(*final(doc)).get((id, length_key())) == Some(payload@.len() as i64),
        forall|key: Seq<u8>|
            key != length_key() ==> #[trigger] entry_at(*final(doc), id, key) == entry_at(*old(doc), id, key),
        spec_rest_kept(*old(doc), *final(doc), id),
{
    let ghost before = *doc;
    proof {
        lemma_keys_differ();
    }
    set_stream_payload(doc, id, payload);
    proof {
        lemma_wrote_entry(before, *doc, id, length_key());
        assert(stream_payloads(*doc).dom() =~= stream_payloads(before).dom());
        assert forall|other: (u32, u16)| #[trigger]
            entry_at(*doc, other, type_key()).0 == entry_at(before, other, type_key()).0 by {
            assert((other, type_key()) != (id, length_key()));
        }
        lemma_same_types(before, *doc);
    }
}

/// Writes one accepted replacement into the document: the filter
/// declaration, the entries that follow it, and then the payload, whose
/// declared length the container library sets. Only this stream changes.
fn apply_replacement(doc: &mut Document, unit: &StreamUnit, payload: &Vec<u8>, update: DictUpdate)
    requires
        stream_payloads(*old(doc)).contains_key(unit.id),
        update.filter == FilterUpdate::FlateOver ==> unit.filter_chain is Some,
        payload@.len() <= i64::MAX,
    ensures
        stream_payloads(*final(doc)) == stream_payloads(*old(doc)).insert(unit.id, payload@),
        spec_follows(*old(doc), *final(doc), *unit, payload@, update),
        spec_only_touches(*old(doc), *final(doc), unit.id),
        spec_rest_kept(*old(doc), *final(doc), unit.id),
{
    let id = unit.id;
    let ghost start = *doc;
    proof {
        lemma_keys_differ();
    }
    write_filter_update(doc, unit, update);
    let ghost filtered = *doc;
    write_image_entries(doc, id, update);
    let ghost entered = *doc;
    write_payload(doc, id, payload.clone());
    proof {
        lemma_touches_chain(start, filtered, entered, id);
        lemma_touches_chain(start, entered, *doc, id);
        lemma_rest_joins(start, filtered, entered, id);
        lemma_rest_joins(start, entered, *doc, id);
        assert(entry_at(*doc, id, filter_key()) == entry_at(entered, id, filter_key()));
        assert(entry_at(*doc, id, decode_parms_key()) == entry_at(entered, id, decode_parms_key()));
        assert(entry_at(*doc, id, color_space_key()) == entry_at(entered, id, color_space_key()));
        assert(entry_at(*doc, id, width_key()) == entry_at(entered, id, width_key()));
        assert(entry_at(*doc, id, height_key()) == entry_at(entered, id, height_key()));
    }
}

/// Recompresses all streams of a document. Every stream is read into a
/// unit, all units are decided on side by side, and only then are the
/// accepted replacements written into the document, in one sequential pass.
/// No stream is added or removed, and no payload grows: a stream either
/// keeps its payload or gets a strictly shorter one, with the dictionary
/// entries that follow it. Nothing else in the document changes, and the
/// report counts exactly what was decided.
pub fn compress_all_streams(doc: &mut Document, settings: &CompressionSettings) -> (report: StreamReport)
    ensures
        exists|units: Seq<StreamUnit>, outcomes: Seq<RecompressionOutcome>| #[trigger]
            spec_is_pass(*old(doc), *final(doc), settings.quality, units, outcomes, report),
        stream_payloads(*final(doc)).dom() == stream_payloads(*old(doc)).dom(),
        forall|id: (u32, u16)| #[trigger]
            stream_payloads(*old(doc)).contains_key(id) ==> stream_payloads(*final(doc))[id]
                == stream_payloads(*old(doc))[id] || stream_payloads(*final(doc))[id].len()
                < stream_payloads(*old(doc))[id].len(),
        declared_types(*final(doc)) == declared_types(*old(doc)),
        referenced_ids(*final(doc)).subset_of(referenced_ids(*old(doc))),
        report.images <= report.streams,
        report.replaced <= report.streams,
{
    let ghost start = *doc;
    let ghost before = stream_payloads(*doc);
    let units = collect_units(doc);
    let outcomes = recompress_all(&units, settings.quality);
    assert forall|i: int| 0 <= i < units@.len() implies (#[trigger] outcomes@[i])@.shrinks(
        units@[i].content@.len(),
    ) && (outcomes@[i]@ matches OutcomeView::Replace { update, .. } ==> (update.filter
        == FilterUpdate::FlateOver ==> units@[i].filter_chain is Some)) by {
        lemma_recompress_never_grows(units@[i], settings.quality, outcomes@[i]@);
    }
    let report = summarize(&units, &outcomes);
    let mut i: usize = 0;
    while i < units.len()
        invariant
            i <= units@.len(),
            outcomes@.len() == units@.len(),
            before == stream_payloads(start),
            spec_units_cover(units@, before),
            forall|k: int| 0 <= k < units@.len() ==> (#[trigger] units@[k]).content@.len() <= i64::MAX,
            forall|k: int|
                0 <= k < units@.len() ==> (#[trigger] outcomes@[k])@.shrinks(units@[k].content@.len())
                    && (outcomes@[k]@ matches OutcomeView::Replace { update, .. } ==> (update.filter
                    == FilterUpdate::FlateOver ==> units@[k].filter_chain is Some)),
            stream_payloads(*doc).dom() =~= before.dom(),
            forall|k: int|
                0 <= k < i ==> stream_payloads(*doc)[(#[trigger] units@[k]).id] == outcomes@[k]@.payload_after(
                    before[units@[k].id],
                ),
            forall|k: int|
                i <= k < units@.len() ==> stream_payloads(*doc)[(#[trigger] units@[k]).id] == before[units@[k].id],
            forall|k: int|
                0 <= k < i ==> ((#[trigger] outcomes@[k])@ matches OutcomeView::Replace { payload, update }
                    ==> spec_follows(start, *doc, units@[k], payload, update)),
            forall|id: (u32, u16)| #[trigger]
                spec_untouched(units@, outcomes@, i as int, id) ==> spec_same_entries(start, *doc, id),
            forall|k: int| 0 <= k < units@.len() ==> spec_rest_kept(start, *doc, (#[trigger] units@[k]).id),
            held_ids(*doc) == held_ids(start),
            declared_types(*doc) == declared_types(start),
            referenced_ids(*doc).subset_of(referenced_ids(start)),
        decreases units@.len() - i,
    {
        let ghost current = *doc;
        assert(before.contains_key(units@[i as int].id));
        assert(stream_payloads(current).dom().contains(units@[i as int].id));
        match &outcomes[i] {
            RecompressionOutcome::Replace { payload, update } => {
                assert(outcomes@[i as int]@ is Replace);
                assert(outcomes@[i as int]@.shrinks(units@[i as int].content@.len()));
                apply_replacement(doc, &units[i], payload, *update);
                proof {
                    let touched = units@[i as int].id;
                    assert forall|k: int|
                        0 <= k < i && ((#[trigger] outcomes@[k])@ matches OutcomeView::Replace {
                            payload,
                            update,
                        }) implies (outcomes@[k]@ matches OutcomeView::Replace { payload, update }
                        ==> spec_follows(start, *doc, units@[k], payload, update)) by {
                        match outcomes@[k]@ {
                            OutcomeView::Replace { payload, update } => {
                                lemma_follows_stays(start, current, *doc, touched, units@[k], payload, update);
                            },
                            OutcomeView::Keep => {},
                        }
                    }
                    assert(spec_untouched(units@, outcomes@, i as int, touched));
                    lemma_follows_from(start, current, *doc, units@[i as int], payload@, *update);
                    assert forall|id: (u32, u16)| #[trigger]
                        spec_untouched(units@, outcomes@, i + 1, id) implies spec_same_entries(
                        start,
                        *doc,
                        id,
                    ) by {
                        assert(spec_untouched(units@, outcomes@, i as int, id));
                        if id == touched {
                            assert(units@[i as int].id == id);
                        }
                        lemma_untouched_is_same(current, *doc, touched, id);
                    }
                    assert forall|k: int| 0 <= k < units@.len() && k != i implies stream_payloads(*doc)[(
                    #[trigger] units@[k]).id] == stream_payloads(current)[units@[k].id] by {
                        assert(units@[k].id != touched);
                    }
                    assert forall|k: int| 0 <= k < units@.len() implies spec_rest_kept(
                        start,
                        *doc,
                        (#[trigger] units@[k]).id,
                    ) by {
                        if k == i {
                            lemma_rest_joins(start, current, *doc, touched);
                        } else {
                            lemma_rest_stays(start, current, *doc, touched, units@[k].id);
                        }
                    }
                }
            },
            RecompressionOutcome::Keep => {
                proof {
                    assert forall|id: (u32, u16)| #[trigger]
                        spec_untouched(units@, outcomes@, i + 1, id) implies spec_same_entries(
                        start,
                        *doc,
                        id,
                    ) by {
                        assert(spec_untouched(units@, outcomes@, i as int, id));
                    }
                }
            },
        }
        i = i + 1;
    }
    assert forall|id: (u32, u16)| #[trigger] before.contains_key(id) implies stream_payloads(*doc)[id]
        == before[id] || stream_payloads(*doc)[id].len() < before[id].len() by {
        let k = choose|k: int| 0 <= k < units@.len() && (#[trigger] units@[k]).id == id;
        assert(outcomes@[k]@.shrinks(units@[k].content@.len()));
    }
    assert(spec_is_pass(start, *doc, settings.quality, units@, outcomes@, report));
    report
}

} // verus!
