//! The document pipeline, a fixed sequence of steps: deduplicate, recompress
//! the streams, strip metadata, run the compaction rounds, compact once
//! more, serialize.

use crate::container::{
    all_referenced, compact_streams, compacted, container_error_text, declared_types,
    delete_empty_streams, empty_streams, entry_at, entry_values, filter_key, flate_name, has_document_header, held_ids,
    integer_entries, lemma_declared_type, lemma_no_growth_chains, lemma_part_is_kept, length_key,
    name_entries, name_entry, no_empty_payload, no_entry, no_growth, object_ids, parse_document,
    prune_unreferenced, referenced_ids, remove_object, serialize_document, stream_payloads, type_key,
    types_kept, was_compacted, write_error_text, written_bytes,
};
use crate::coordinator::{
    compress_all_streams, spec_follows, spec_is_pass, spec_same_entries, spec_untouched, StreamReport,
};
use crate::dedup::{bytes_equal, remove_duplicate_objects, spec_duplicate_ids};
use crate::error::{starts_with, with_lead, CompressionError};
use crate::model::{CompressionSettings, OutcomeView, RecompressionOutcome, StreamUnit};
use crate::quality::{level_to_quality, spec_clamp_level, spec_level_to_quality};
use lopdf::Document;
use vstd::prelude::*;
use vstd::string::*;

verus! {

/// Compaction rounds that a call runs when its caller does not say.
pub const DEFAULT_ROUNDS: u32 = 2;

/// The most compaction rounds that a call ever runs.
pub const MAX_ROUNDS: u32 = 5;

/// What the document pipeline did.
#[derive(Clone, Copy, Debug)]
pub struct DocumentReport {
    /// How many streams repeat the payload of an earlier stream.
    pub duplicates: usize,
    /// What the pass over the streams did.
    pub streams: StreamReport,
    /// How many metadata objects were removed.
    pub metadata_removed: usize,
    /// How many compaction rounds ran before the final compaction.
    pub rounds: u32,
}

/// The declared type that marks an object as document metadata.
pub open spec fn spec_metadata_type() -> Seq<u8> {
    "Metadata".spec_bytes()
}

/// The rounds that run for a requested count: the default where nothing is
/// requested, and never more than the cap.
pub open spec fn spec_effective_rounds(requested: Option<u32>) -> u32 {
    match requested {
        None => DEFAULT_ROUNDS,
        Some(rounds) => if rounds > MAX_ROUNDS {
            MAX_ROUNDS
        } else {
            rounds
        },
    }
}

/// The declared types that are left once metadata is stripped.
pub open spec fn spec_without_metadata(types: Map<(u32, u16), Seq<u8>>) -> Map<(u32, u16), Seq<u8>> {
    types.remove_keys(spec_metadata_ids(types))
}

/// The objects whose declared type marks them as metadata.
pub open spec fn spec_metadata_ids(types: Map<(u32, u16), Seq<u8>>) -> Set<(u32, u16)> {
    Set::new(|id: (u32, u16)| types.contains_key(id) && types[id] == spec_metadata_type())
}

/// Whether no object of a document is marked as metadata.
pub open spec fn spec_free_of_metadata(types: Map<(u32, u16), Seq<u8>>) -> bool {
    forall|id: (u32, u16)| #[trigger] types.contains_key(id) ==> types[id] != spec_metadata_type()
}

/// Where declared types are kept, no metadata comes back.
pub proof fn lemma_metadata_stays_out(before: Map<(u32, u16), Seq<u8>>, after: Map<(u32, u16), Seq<u8>>)
    requires
        spec_free_of_metadata(before),
        types_kept(before, after),
    ensures
        spec_free_of_metadata(after),
{
    assert forall|id: (u32, u16)| #[trigger] after.contains_key(id) implies after[id]
        != spec_metadata_type() by {
        assert(before.contains_key(id));
    }
}

/// Removing an object removes its declared type and no other.
proof fn lemma_removed_type(before: Document, after: Document, id: (u32, u16))
    requires
        forall|other: (u32, u16), key: Seq<u8>|
            #![trigger entry_at(after, other, key)]
            entry_at(after, other, key) == if other == id {
                no_entry()
            } else {
                entry_at(before, other, key)
            },
    ensures
        declared_types(after) == declared_types(before).remove(id),
{
    let removed = declared_types(before).remove(id);
    assert forall|other: (u32, u16)| #[trigger]
        declared_types(after).dom().contains(other) == removed.dom().contains(other) by {
        lemma_declared_type(after, other);
        lemma_declared_type(before, other);
        assert(entry_at(after, other, type_key()) == if other == id {
            no_entry()
        } else {
            entry_at(before, other, type_key())
        });
    }
    assert forall|other: (u32, u16)| declared_types(after).dom().contains(other) implies #[trigger] declared_types(
        after,
    )[other] == removed[other] by {
        lemma_declared_type(after, other);
        lemma_declared_type(before, other);
        assert(entry_at(after, other, type_key()) == if other == id {
            no_entry()
        } else {
            entry_at(before, other, type_key())
        });
    }
    assert(declared_types(after).dom() =~= removed.dom());
    assert(declared_types(after) =~= removed);
}

/// Settles the number of compaction rounds from what a caller configured.
pub fn effective_rounds(requested: Option<u32>) -> (rounds: u32)
    ensures
        rounds == spec_effective_rounds(requested),
        rounds <= MAX_ROUNDS,
{
    match requested {
        None => DEFAULT_ROUNDS,
        Some(rounds) => {
            if rounds > MAX_ROUNDS {
                MAX_ROUNDS
            } else {
                rounds
            }
        },
    }
}

/// Removes every object whose declared type marks it as document metadata,
/// and nothing else. Returns how many objects were removed.
pub fn strip_metadata(doc: &mut Document) -> (removed: usize)
    ensures
        removed == spec_metadata_ids(declared_types(*old(doc))).len(),
        declared_types(*final(doc)) == spec_without_metadata(declared_types(*old(doc))),
        stream_payloads(*final(doc)) == stream_payloads(*old(doc)).remove_keys(
            spec_metadata_ids(declared_types(*old(doc))),
        ),
        spec_free_of_metadata(declared_types(*final(doc))),
        referenced_ids(*final(doc)).subset_of(referenced_ids(*old(doc))),
        spec_is_stripped(*old(doc), *final(doc)),
{
    let ghost start = *doc;
    let ghost referenced = referenced_ids(*doc);
    let ghost types = declared_types(*doc);
    let ghost payloads = stream_payloads(*doc);
    let ghost mut gone: Set<(u32, u16)> = Set::empty();
    let ids = object_ids(doc);
    let mut removed: usize = 0;
    let mut i: usize = 0;
    while i < ids.len()
        invariant
            i <= ids@.len(),
            removed <= i,
            ids@.no_duplicates(),
            gone.finite(),
            gone.len() == removed,
            forall|id: (u32, u16)| types.contains_key(id) ==> ids@.contains(id),
            forall|id: (u32, u16)| gone.contains(id) ==> spec_metadata_ids(types).contains(id),
            forall|id: (u32, u16)| gone.contains(id) ==> exists|j: int| 0 <= j < i && ids@[j] == id,
            forall|j: int|
                0 <= j < i && spec_metadata_ids(types).contains(#[trigger] ids@[j]) ==> gone.contains(ids@[j]),
            declared_types(*doc) =~= types.remove_keys(gone),
            stream_payloads(*doc) =~= payloads.remove_keys(gone),
            held_ids(*doc) =~= held_ids(start).difference(gone),
            forall|id: (u32, u16), key: Seq<u8>|
                #![trigger entry_at(*doc, id, key)]
                entry_at(*doc, id, key) == if gone.contains(id) {
                    no_entry()
                } else {
                    entry_at(start, id, key)
                },
            referenced_ids(*doc).subset_of(referenced),
        decreases ids@.len() - i,
    {
        let id = ids[i];
        proof {
            lemma_declared_type(*doc, id);
        }
        let is_metadata = match name_entry(doc, id, "Type".as_bytes()) {
            Some(name) => bytes_equal(name.as_slice(), "Metadata".as_bytes()),
            None => false,
        };
        if is_metadata {
            let ghost current = *doc;
            remove_object(doc, id);
            removed = removed + 1;
            proof {
                lemma_removed_type(current, *doc, id);
                if gone.contains(id) {
                    let j = choose|j: int| 0 <= j < i && ids@[j] == id;
                    assert(ids@[j] == ids@[i as int]);
                }
                gone = gone.insert(id);
            }
        }
        i = i + 1;
    }
    proof {
        assert forall|id: (u32, u16)| spec_metadata_ids(types).contains(id) implies gone.contains(id) by {
            assert(ids@.contains(id));
            let j = choose|j: int| 0 <= j < ids@.len() && ids@[j] == id;
            assert(spec_metadata_ids(types).contains(ids@[j]));
        }
        assert(gone =~= spec_metadata_ids(types));
    }
    removed
}

/// What compacting the streams and then dropping what is no longer
/// referenced leaves of the payloads: each stream that was referenced once
/// the streams were compacted, with its payload as it was or deflated.
/// `kept` is what the document referred to at that point.
pub open spec fn spec_is_compaction(
    before: Map<(u32, u16), Seq<u8>>,
    after: Map<(u32, u16), Seq<u8>>,
    kept: Set<(u32, u16)>,
) -> bool {
    &&& after.dom() == before.dom().intersect(kept)
    &&& compacted(before, after)
}

/// Whether every object and every stream of `after` holds in its
/// dictionary what it held in `before`, but for the streams that were
/// deflated in between: those had no filter entry, and declare the deflate
/// filter and the length of their new payload. Where `whole` is set this is
/// said of every entry, and otherwise of the names and the integers:
/// deleting a stream takes the references to it out of the other
/// dictionaries.
pub open spec fn spec_entries_kept(before: Document, after: Document, whole: bool) -> bool {
    &&& forall|id: (u32, u16), key: Seq<u8>|
        #![trigger entry_at(after, id, key)]
        held_ids(after).contains(id) || stream_payloads(after).contains_key(id) ==> {
            ||| whole && entry_at(after, id, key) == entry_at(before, id, key)
            ||| !whole && entry_at(after, id, key).0 == entry_at(before, id, key).0 && entry_at(after, id, key).1
                == entry_at(before, id, key).1
            ||| was_compacted(before, after, id) && (key == filter_key() || key == length_key())
        }
    &&& forall|id: (u32, u16)| #[trigger]
        was_compacted(before, after, id) ==> !entry_values(before).contains_key((id, filter_key()))
            && name_entries(after).get((id, filter_key())) == Some(flate_name()) && integer_entries(after).get(
            (id, length_key()),
        ) == Some(stream_payloads(after)[id].len() as i64)
}

/// Whether `after` is what one compaction round leaves of `before`. With
/// `kept` being what the document referred to once its streams were
/// compacted, and `pruned` the streams among them: the objects that are
/// left are those of `kept` but for the empty streams of `pruned`, with
/// their dictionaries as they were; the streams that are left are those of
/// `pruned` that are not empty; and the declared types that are left are
/// those of the objects that are left. Where no stream is empty, the
/// document still refers to all of `kept`.
pub open spec fn spec_is_round(before: Document, after: Document) -> bool {
    exists|kept: Set<(u32, u16)>, pruned: Map<(u32, u16), Seq<u8>>|
        #![trigger spec_is_compaction(stream_payloads(before), pruned, kept)]
        {
            &&& kept.subset_of(referenced_ids(before))
            &&& referenced_ids(after).subset_of(kept)
            &&& no_empty_payload(pruned) ==> referenced_ids(after) == kept
            &&& spec_entries_kept(before, after, no_empty_payload(pruned))
            &&& spec_is_compaction(stream_payloads(before), pruned, kept)
            &&& held_ids(after) == held_ids(before).intersect(kept).difference(empty_streams(pruned))
            &&& stream_payloads(after) == pruned.remove_keys(empty_streams(pruned))
            &&& declared_types(after) == declared_types(before).restrict(kept).remove_keys(
                empty_streams(pruned),
            )
        }
}

/// Whether `after` is what so many compaction rounds leave of `before`.
pub open spec fn spec_is_rounds(before: Document, after: Document, rounds: nat) -> bool
    decreases rounds,
{
    if rounds == 0 {
        after == before
    } else {
        exists|middle: Document|
            spec_is_rounds(before, middle, (rounds - 1) as nat) && #[trigger] spec_is_round(middle, after)
    }
}

/// A round after so many rounds makes one round more.
pub proof fn lemma_one_more_round(before: Document, middle: Document, after: Document, rounds: nat)
    requires
        spec_is_rounds(before, middle, rounds),
        spec_is_round(middle, after),
    ensures
        spec_is_rounds(before, after, rounds + 1),
{
    assert(((rounds + 1) as nat - 1) as nat == rounds);
}

/// Whether `after` is what the final compaction leaves of `before`: the
/// objects that the document still refers to, with their dictionaries and
/// their declared types, each stream with its payload as it was or
/// deflated.
pub open spec fn spec_is_final(before: Document, after: Document) -> bool {
    &&& held_ids(after) == held_ids(before).intersect(referenced_ids(after))
    &&& spec_entries_kept(before, after, true)
    &&& spec_is_compaction(stream_payloads(before), stream_payloads(after), referenced_ids(after))
    &&& declared_types(after) == declared_types(before).restrict(referenced_ids(after))
    &&& referenced_ids(after).subset_of(referenced_ids(before))
}

/// Whether `after` is what stripping the metadata leaves of `before`: the
/// objects that are not marked as metadata, each as it was.
pub open spec fn spec_is_stripped(before: Document, after: Document) -> bool {
    &&& held_ids(after) == held_ids(before).difference(spec_metadata_ids(declared_types(before)))
    &&& forall|id: (u32, u16), key: Seq<u8>|
        #![trigger entry_at(after, id, key)]
        entry_at(after, id, key) == if spec_metadata_ids(declared_types(before)).contains(id) {
            no_entry()
        } else {
            entry_at(before, id, key)
        }
    &&& declared_types(after) == spec_without_metadata(declared_types(before))
    &&& stream_payloads(after) == stream_payloads(before).remove_keys(
        spec_metadata_ids(declared_types(before)),
    )
    &&& referenced_ids(after).subset_of(referenced_ids(before))
}

/// One compaction round: the container library deflates the unfiltered
/// streams that get shorter by it, drops what is no longer referenced and
/// deletes the streams that are empty.
pub fn compaction_round(doc: &mut Document)
    ensures
        spec_is_round(*old(doc), *final(doc)),
        no_growth(stream_payloads(*old(doc)), stream_payloads(*final(doc))),
        types_kept(declared_types(*old(doc)), declared_types(*final(doc))),
        compacted(stream_payloads(*old(doc)), stream_payloads(*final(doc))),
        no_empty_payload(stream_payloads(*final(doc))),
        all_referenced(stream_payloads(*final(doc)), referenced_ids(*old(doc))),
        all_referenced(declared_types(*final(doc)), referenced_ids(*old(doc))),
        referenced_ids(*final(doc)).subset_of(referenced_ids(*old(doc))),
{
    let ghost before = *doc;
    compact_streams(doc);
    let ghost compact = *doc;
    prune_unreferenced(doc);
    let ghost pruned = *doc;
    delete_empty_streams(doc);
    proof {
        let after = *doc;
        let payloads = stream_payloads(pruned);
        lemma_pruned_is_compaction(before, compact, pruned);
        lemma_entries_stay(before, compact, pruned, after, empty_streams(payloads), no_empty_payload(payloads));
        lemma_part_is_kept(payloads, stream_payloads(after));
        lemma_no_growth_chains(stream_payloads(before), payloads, stream_payloads(after));
        assert forall|id: (u32, u16)| #[trigger] stream_payloads(after).contains_key(id) implies payloads.contains_key(
            id,
        ) by {}
        assert forall|id: (u32, u16)| #[trigger] declared_types(after).contains_key(id) implies declared_types(
            pruned,
        ).contains_key(id) by {}
        assert(spec_is_compaction(stream_payloads(before), payloads, referenced_ids(compact)));
    }
}

/// What compacting the streams and dropping what is then no longer
/// referred to leaves: the streams that are referred to, each with its
/// payload as it was or deflated, and the declared types of the objects
/// that are referred to.
proof fn lemma_pruned_is_compaction(before: Document, compact: Document, pruned: Document)
    requires
        stream_payloads(compact).dom() == stream_payloads(before).dom(),
        compacted(stream_payloads(before), stream_payloads(compact)),
        declared_types(compact) == declared_types(before),
        referenced_ids(compact).subset_of(referenced_ids(before)),
        stream_payloads(pruned) == stream_payloads(compact).restrict(referenced_ids(compact)),
        declared_types(pruned) == declared_types(compact).restrict(referenced_ids(compact)),
        referenced_ids(pruned) == referenced_ids(compact),
    ensures
        spec_is_compaction(stream_payloads(before), stream_payloads(pruned), referenced_ids(pruned)),
        no_growth(stream_payloads(before), stream_payloads(pruned)),
        types_kept(declared_types(before), declared_types(pruned)),
        all_referenced(stream_payloads(pruned), referenced_ids(pruned)),
        all_referenced(declared_types(pruned), referenced_ids(pruned)),
{
    let payloads = stream_payloads(pruned);
    assert(payloads.dom() =~= stream_payloads(before).dom().intersect(referenced_ids(pruned)));
    assert forall|id: (u32, u16)| #[trigger] payloads.contains_key(id) implies stream_payloads(
        compact,
    ).contains_key(id) && referenced_ids(pruned).contains(id) by {
        assert(payloads.dom().contains(id));
    }
    assert forall|id: (u32, u16)| #[trigger] declared_types(pruned).contains_key(id) implies referenced_ids(
        pruned,
    ).contains(id) by {
        assert(declared_types(pruned).dom().contains(id));
    }
}

/// What the dictionaries hold after the steps of a round is what they held
/// before, but for the streams that the first step deflated. `gone` are the
/// streams that the last step deleted, and `whole` says that it left every
/// entry of the other objects alone.
proof fn lemma_entries_stay(
    before: Document,
    compact: Document,
    pruned: Document,
    after: Document,
    gone: Set<(u32, u16)>,
    whole: bool,
)
    requires
        stream_payloads(compact).dom() == stream_payloads(before).dom(),
        forall|id: (u32, u16), key: Seq<u8>|
            #![trigger entry_at(compact, id, key)]
            entry_at(compact, id, key) == entry_at(before, id, key) || (was_compacted(before, compact, id) && (key
                == filter_key() || key == length_key())),
        forall|id: (u32, u16)| #[trigger]
            was_compacted(before, compact, id) ==> !entry_values(before).contains_key((id, filter_key()))
                && name_entries(compact).get((id, filter_key())) == Some(flate_name()) && integer_entries(
                compact,
            ).get((id, length_key())) == Some(stream_payloads(compact)[id].len() as i64),
        stream_payloads(pruned) == stream_payloads(compact).restrict(referenced_ids(compact)),
        held_ids(pruned) == held_ids(compact).intersect(referenced_ids(compact)),
        forall|id: (u32, u16), key: Seq<u8>|
            #![trigger entry_at(pruned, id, key)]
            entry_at(pruned, id, key) == if referenced_ids(compact).contains(id) {
                entry_at(compact, id, key)
            } else {
                no_entry()
            },
        stream_payloads(after) == stream_payloads(pruned).remove_keys(gone),
        held_ids(after) == held_ids(pruned).difference(gone),
        forall|id: (u32, u16), key: Seq<u8>|
            #![trigger entry_at(after, id, key)]
            !gone.contains(id) ==> entry_at(after, id, key).0 == entry_at(pruned, id, key).0 && entry_at(
                after,
                id,
                key,
            ).1 == entry_at(pruned, id, key).1,
        whole ==> forall|id: (u32, u16), key: Seq<u8>| #[trigger]
            entry_at(after, id, key) == entry_at(pruned, id, key),
    ensures
        spec_entries_kept(before, after, whole),
{
    assert forall|id: (u32, u16), key: Seq<u8>|
        #![trigger entry_at(after, id, key)]
        held_ids(after).contains(id) || stream_payloads(after).contains_key(id) implies (whole && entry_at(
            after,
            id,
            key,
        ) == entry_at(before, id, key)) || (!whole && entry_at(after, id, key).0 == entry_at(before, id, key).0
            && entry_at(after, id, key).1 == entry_at(before, id, key).1) || (was_compacted(before, after, id) && (
        key == filter_key() || key == length_key())) by {
        if stream_payloads(after).contains_key(id) {
            assert(stream_payloads(after).dom().contains(id));
            assert(stream_payloads(pruned).dom().contains(id));
        }
        assert(!gone.contains(id));
        assert(referenced_ids(compact).contains(id));
        assert(entry_at(pruned, id, key) == entry_at(compact, id, key));
        if entry_at(compact, id, key) != entry_at(before, id, key) {
            assert(was_compacted(before, compact, id));
            assert(stream_payloads(pruned).dom().contains(id));
            assert(stream_payloads(after).dom().contains(id));
        }
    }
    assert forall|id: (u32, u16)| #[trigger] was_compacted(before, after, id) implies !entry_values(
        before,
    ).contains_key((id, filter_key())) && name_entries(after).get((id, filter_key())) == Some(flate_name())
        && integer_entries(after).get((id, length_key())) == Some(stream_payloads(after)[id].len() as i64) by {
        assert(stream_payloads(after).dom().contains(id));
        assert(stream_payloads(pruned).dom().contains(id) && !gone.contains(id));
        assert(was_compacted(before, compact, id));
        assert(entry_at(pruned, id, filter_key()) == entry_at(compact, id, filter_key()));
        assert(entry_at(pruned, id, length_key()) == entry_at(compact, id, length_key()));
        assert(entry_at(after, id, filter_key()).0 == entry_at(pruned, id, filter_key()).0);
        assert(entry_at(after, id, length_key()).1 == entry_at(pruned, id, length_key()).1);
    }
}

/// The final compaction: as a round, without deleting empty streams.
/// Afterwards the streams and the typed objects are exactly those that the
/// document still refers to, each stream with its payload as it was or
/// deflated.
pub fn final_compaction(doc: &mut Document)
    ensures
        spec_is_final(*old(doc), *final(doc)),
        no_growth(stream_payloads(*old(doc)), stream_payloads(*final(doc))),
        types_kept(declared_types(*old(doc)), declared_types(*final(doc))),
        all_referenced(stream_payloads(*final(doc)), referenced_ids(*final(doc))),
        all_referenced(declared_types(*final(doc)), referenced_ids(*final(doc))),
{
    let ghost before = *doc;
    compact_streams(doc);
    let ghost compact = *doc;
    prune_unreferenced(doc);
    proof {
        let nothing = Set::<(u32, u16)>::empty();
        assert(stream_payloads(*doc).remove_keys(nothing) =~= stream_payloads(*doc));
        assert(held_ids(*doc).difference(nothing) =~= held_ids(*doc));
        lemma_entries_stay(before, compact, *doc, *doc, nothing, true);
        lemma_pruned_is_compaction(before, compact, *doc);
    }
}

/// Whether `after` is what the steps behind the stream pass leave of the
/// document that the pass left: the metadata is stripped, so many
/// compaction rounds are run, and the final compaction follows.
pub open spec fn spec_is_finished(passed: Document, after: Document, rounds: nat) -> bool {
    exists|stripped: Document, last: Document|
        #![trigger spec_is_rounds(stripped, last, rounds)]
        spec_is_stripped(passed, stripped) && spec_is_rounds(stripped, last, rounds) && spec_is_final(last, after)
}

/// What the pipeline leaves of a document. The streams were recompressed
/// by a plan at the quality for the level; of what that pass left, the
/// metadata was stripped, the compaction rounds were run and the final
/// compaction followed, each step leaving exactly what it is said to
/// leave. So nothing has grown, nothing is marked as metadata, everything
/// that is left is referred to, nothing new is referred to, and the report
/// counts the repeated streams and the metadata objects of the document as
/// it was.
pub open spec fn spec_is_compressed(
    before: Document,
    after: Document,
    level: u8,
    rounds: u32,
    report: DocumentReport,
) -> bool {
    &&& exists|passed: Document, units: Seq<StreamUnit>, outcomes: Seq<RecompressionOutcome>| #[trigger]
        spec_is_pass(before, passed, spec_level_to_quality(level) as u8, units, outcomes, report.streams)
            && spec_is_finished(passed, after, report.rounds as nat)
    &&& report.duplicates == spec_duplicate_ids(stream_payloads(before)).len()
    &&& report.metadata_removed == spec_metadata_ids(declared_types(before)).len()
    &&& report.rounds == spec_effective_rounds(Some(rounds))
    &&& no_growth(stream_payloads(before), stream_payloads(after))
    &&& spec_free_of_metadata(declared_types(after))
    &&& all_referenced(stream_payloads(after), referenced_ids(after))
    &&& all_referenced(declared_types(after), referenced_ids(after))
    &&& referenced_ids(after).subset_of(referenced_ids(before))
}

/// Whether every stream of a document declares the length of its payload.
pub open spec fn spec_lengths_agree(doc: Document) -> bool {
    forall|id: (u32, u16)| #[trigger]
        stream_payloads(doc).contains_key(id) ==> integer_entries(doc).get((id, length_key())) == Some(
            stream_payloads(doc)[id].len() as i64,
        )
}

/// A pass over the streams keeps the declared lengths right.
proof fn lemma_pass_keeps_lengths(
    before: Document,
    after: Document,
    quality: u8,
    units: Seq<StreamUnit>,
    outcomes: Seq<RecompressionOutcome>,
    report: StreamReport,
)
    requires
        spec_is_pass(before, after, quality, units, outcomes, report),
        spec_lengths_agree(before),
    ensures
        spec_lengths_agree(after),
{
    assert forall|id: (u32, u16)| #[trigger] stream_payloads(after).contains_key(id) implies integer_entries(
        after,
    ).get((id, length_key())) == Some(stream_payloads(after)[id].len() as i64) by {
        assert(stream_payloads(after).dom().contains(id));
        assert(stream_payloads(before).contains_key(id));
        let i = choose|i: int| 0 <= i < units.len() && (#[trigger] units[i]).id == id;
        match outcomes[i]@ {
            OutcomeView::Replace { payload, update } => {
                assert(spec_follows(before, after, units[i], payload, update));
            },
            OutcomeView::Keep => {
                assert(spec_untouched(units, outcomes, units.len() as int, id)) by {
                    assert forall|k: int| 0 <= k < units.len() && (#[trigger] units[k]).id == id implies outcomes[k]@
                        is Keep by {
                        if k < i {
                            assert(units[k].id != units[i].id);
                        } else if i < k {
                            assert(units[i].id != units[k].id);
                        }
                    }
                }
                assert(spec_same_entries(before, after, id));
                assert(entry_at(after, id, length_key()) == entry_at(before, id, length_key()));
            },
        }
    }
}

/// What compacting leaves keeps the declared lengths right.
proof fn lemma_compaction_keeps_lengths(
    before: Document,
    after: Document,
    middle: Map<(u32, u16), Seq<u8>>,
    whole: bool,
)
    requires
        spec_lengths_agree(before),
        spec_entries_kept(before, after, whole),
        compacted(stream_payloads(before), middle),
        stream_payloads(after).submap_of(middle),
    ensures
        spec_lengths_agree(after),
{
    assert forall|id: (u32, u16)| #[trigger] stream_payloads(after).contains_key(id) implies integer_entries(
        after,
    ).get((id, length_key())) == Some(stream_payloads(after)[id].len() as i64) by {
        assert(stream_payloads(after).dom().contains(id));
        assert(middle.contains_key(id) && middle[id] == stream_payloads(after)[id]);
        assert(stream_payloads(before).contains_key(id));
        if !was_compacted(before, after, id) {
            assert(entry_at(after, id, length_key()).1 == entry_at(before, id, length_key()).1);
        }
    }
}

/// Compaction rounds keep the declared lengths right.
proof fn lemma_rounds_keep_lengths(before: Document, after: Document, rounds: nat)
    requires
        spec_is_rounds(before, after, rounds),
        spec_lengths_agree(before),
    ensures
        spec_lengths_agree(after),
    decreases rounds,
{
    if rounds > 0 {
        let middle = choose|middle: Document|
            spec_is_rounds(before, middle, (rounds - 1) as nat) && #[trigger] spec_is_round(middle, after);
        lemma_rounds_keep_lengths(before, middle, (rounds - 1) as nat);
        let (kept, pruned) = choose|kept: Set<(u32, u16)>, pruned: Map<(u32, u16), Seq<u8>>|
            #![trigger spec_is_compaction(stream_payloads(middle), pruned, kept)]
            {
                &&& spec_is_compaction(stream_payloads(middle), pruned, kept)
                &&& spec_entries_kept(middle, after, no_empty_payload(pruned))
                &&& stream_payloads(after) == pruned.remove_keys(empty_streams(pruned))
            };
        lemma_compaction_keeps_lengths(middle, after, pruned, no_empty_payload(pruned));
    }
}

/// The pipeline keeps the declared lengths right: where every stream of a
/// document declares the length of its payload, every stream of the
/// document that the pipeline leaves does so too.
pub proof fn lemma_lengths_stay_right(
    before: Document,
    after: Document,
    level: u8,
    rounds: u32,
    report: DocumentReport,
)
    requires
        spec_is_compressed(before, after, level, rounds, report),
        spec_lengths_agree(before),
    ensures
        spec_lengths_agree(after),
{
    let (passed, units, outcomes) = choose|
        passed: Document,
        units: Seq<StreamUnit>,
        outcomes: Seq<RecompressionOutcome>,
    | #[trigger]
        spec_is_pass(before, passed, spec_level_to_quality(level) as u8, units, outcomes, report.streams)
            && spec_is_finished(passed, after, report.rounds as nat);
    lemma_pass_keeps_lengths(before, passed, spec_level_to_quality(level) as u8, units, outcomes, report.streams);
    let (stripped, last) = choose|stripped: Document, last: Document|
        #![trigger spec_is_rounds(stripped, last, report.rounds as nat)]
        spec_is_stripped(passed, stripped) && spec_is_rounds(stripped, last, report.rounds as nat) && spec_is_final(
            last,
            after,
        );
    assert(spec_lengths_agree(stripped)) by {
        assert forall|id: (u32, u16)| #[trigger] stream_payloads(stripped).contains_key(id) implies integer_entries(
            stripped,
        ).get((id, length_key())) == Some(stream_payloads(stripped)[id].len() as i64) by {
            assert(stream_payloads(passed).contains_key(id));
            assert(entry_at(stripped, id, length_key()) == entry_at(passed, id, length_key()));
        }
    }
    lemma_rounds_keep_lengths(stripped, last, report.rounds as nat);
    lemma_compaction_keeps_lengths(last, after, stream_payloads(after), true);
}

/// Runs the pipeline on a parsed document: counts the streams that repeat
/// an earlier one, recompresses the streams at the quality for `level`,
/// strips metadata, runs `rounds` compaction rounds (at most the cap) and
/// compacts once more.
pub fn compress_document(doc: &mut Document, level: u8, rounds: u32) -> (report: DocumentReport)
    ensures
        spec_is_compressed(*old(doc), *final(doc), level, rounds, report),
        report.streams.replaced <= report.streams.streams,
{
    let ghost before = *doc;
    let ghost start = stream_payloads(*doc);
    let settings = CompressionSettings { quality: level_to_quality(level) };
    let duplicates = remove_duplicate_objects(doc).len();
    let streams = compress_all_streams(doc, &settings);
    let ghost passed = *doc;
    assert(no_growth(start, stream_payloads(passed))) by {
        assert(stream_payloads(passed).dom() =~= start.dom());
    }
    let metadata_removed = strip_metadata(doc);
    let ghost stripped = *doc;
    proof {
        lemma_part_is_kept(stream_payloads(passed), stream_payloads(stripped));
        lemma_no_growth_chains(start, stream_payloads(passed), stream_payloads(stripped));
    }
    let planned: u32 = effective_rounds(Some(rounds));
    let mut round: u32 = 0;
    while round < planned
        invariant
            round <= planned,
            spec_is_rounds(stripped, *doc, round as nat),
            no_growth(start, stream_payloads(*doc)),
            spec_free_of_metadata(declared_types(*doc)),
            referenced_ids(*doc).subset_of(referenced_ids(before)),
        decreases planned - round,
    {
        let ghost current = *doc;
        compaction_round(doc);
        proof {
            lemma_no_growth_chains(start, stream_payloads(current), stream_payloads(*doc));
            lemma_metadata_stays_out(declared_types(current), declared_types(*doc));
            lemma_one_more_round(stripped, current, *doc, round as nat);
        }
        round = round + 1;
    }
    let ghost last = *doc;
    final_compaction(doc);
    let report = DocumentReport { duplicates, streams, metadata_removed, rounds: planned };
    proof {
        lemma_no_growth_chains(start, stream_payloads(last), stream_payloads(*doc));
        lemma_metadata_stays_out(declared_types(last), declared_types(*doc));
        let (units, outcomes) = choose|units: Seq<StreamUnit>, outcomes: Seq<RecompressionOutcome>| #[trigger]
            spec_is_pass(before, passed, settings.quality, units, outcomes, streams);
        assert(spec_is_rounds(stripped, last, report.rounds as nat));
        assert(spec_is_pass(before, passed, spec_level_to_quality(level) as u8, units, outcomes, report.streams));
    }
    report
}

/// Whether a result is what writing the document that the pipeline leaves
/// gives: the bytes that the writer makes of it, which begin with the
/// document header, or a failure to serialize where the writer makes none.
pub open spec fn spec_is_written(
    before: Document,
    after: Document,
    level: u8,
    rounds: u32,
    result: Result<Vec<u8>, CompressionError>,
) -> bool {
    &&& exists|report: DocumentReport| #[trigger] spec_is_compressed(before, after, level, rounds, report)
    &&& match result {
        Ok(bytes) => written_bytes(after) == Some(bytes@) && has_document_header(bytes@),
        Err(CompressionError::SerializeFailed(text)) => written_bytes(after) is None && starts_with(
            text@,
            "Failed to save: "@,
        ),
        Err(_) => false,
    }
}

/// The level counts only as far as it is honoured: two levels that clamp to
/// the same level allow the same results.
pub proof fn lemma_level_counts_clamped(
    before: Document,
    after: Document,
    first: u8,
    second: u8,
    rounds: u32,
    result: Result<Vec<u8>, CompressionError>,
)
    requires
        spec_clamp_level(first) == spec_clamp_level(second),
        spec_is_written(before, after, first, rounds, result),
    ensures
        spec_is_written(before, after, second, rounds, result),
{
    let report = choose|report: DocumentReport| #[trigger] spec_is_compressed(before, after, first, rounds, report);
    assert(spec_level_to_quality(first) == spec_level_to_quality(second));
    assert(spec_is_compressed(before, after, second, rounds, report));
}

/// Maps what the container library's writer returned to the result of the
/// call: the bytes as they are, an error as a serialization failure.
pub fn finish_document(written: Result<Vec<u8>, std::io::Error>) -> (result: Result<Vec<u8>, CompressionError>)
    ensures
        match written {
            Ok(bytes) => result == Ok::<Vec<u8>, CompressionError>(bytes),
            Err(_) => result matches Err(CompressionError::SerializeFailed(text)) && starts_with(
                text@,
                "Failed to save: "@,
            ),
        },
{
    match written {
        Ok(bytes) => Ok(bytes),
        Err(error) => {
            let detail = write_error_text(&error);
            Err(CompressionError::SerializeFailed(with_lead("Failed to save: ", detail.as_str())))
        },
    }
}

/// What a call returns for what the parser made of its input: a failure to
/// parse where the parser read no document, and otherwise what writing the
/// document that the pipeline leaves gives.
pub open spec fn spec_parsed_result(
    parsed: Result<Document, lopdf::Error>,
    level: u8,
    rounds: u32,
    result: Result<Vec<u8>, CompressionError>,
) -> bool {
    match parsed {
        Err(_) => result matches Err(CompressionError::ParseFailed(text)) && starts_with(
            text@,
            "Failed to load PDF: "@,
        ),
        Ok(doc) => exists|after: Document| #[trigger] spec_is_written(doc, after, level, rounds, result),
    }
}

/// Compresses what the parser made of a document given as bytes: a parse
/// failure is reported as such, and a parsed document goes through the
/// pipeline and is written.
pub fn compress_parsed(parsed: Result<Document, lopdf::Error>, compression_level: u8, rounds: u32) -> (result:
    Result<Vec<u8>, CompressionError>)
    ensures
        spec_parsed_result(parsed, compression_level, rounds, result),
        !(result matches Err(CompressionError::EmptyInput)),
        result matches Ok(bytes) ==> has_document_header(bytes@) && bytes@.len() > 0,
{
    match parsed {
        Err(error) => {
            let detail = container_error_text(&error);
            Err(CompressionError::ParseFailed(with_lead("Failed to load PDF: ", detail.as_str())))
        },
        Ok(doc) => {
            let ghost before = doc;
            let mut doc = doc;
            let report = compress_document(&mut doc, compression_level, rounds);
            let ghost after = doc;
            let result = finish_document(serialize_document(&mut doc));
            assert(spec_is_written(before, after, compression_level, rounds, result));
            result
        },
    }
}

/// What a call on bytes that are not empty returns, whatever the parser
/// makes of them: a failure to parse, or what writing the document that the
/// pipeline leaves of some parsed document gives.
pub open spec fn spec_document_result(level: u8, rounds: u32, result: Result<Vec<u8>, CompressionError>) -> bool {
    ||| result matches Err(CompressionError::ParseFailed(text)) && starts_with(text@, "Failed to load PDF: "@)
    ||| exists|before: Document, after: Document| #[trigger] spec_is_written(before, after, level, rounds, result)
}

/// Compresses a document given as bytes, with a configured number of
/// compaction rounds. An empty input is reported as such. Otherwise the
/// bytes are parsed, and the result is what `compress_parsed` makes of the
/// outcome: a failure to parse, or what the writer makes of the document
/// that the pipeline leaves. Everything that goes wrong for a single stream
/// leaves that stream as it was.
pub fn compress_pdf_bytes_with_rounds(input_bytes: &[u8], compression_level: u8, rounds: u32) -> (result: Result<
    Vec<u8>,
    CompressionError,
>)
    ensures
        input_bytes@.len() == 0 <==> result matches Err(CompressionError::EmptyInput),
        input_bytes@.len() > 0 ==> spec_document_result(compression_level, rounds, result),
        result matches Ok(bytes) ==> has_document_header(bytes@) && bytes@.len() > 0,
{
    if input_bytes.len() == 0 {
        return Err(CompressionError::EmptyInput);
    }
    compress_parsed(parse_document(input_bytes), compression_level, rounds)
}

/// Compresses a document given as bytes at `compression_level`, which is
/// clamped to the honoured range, with the default number of compaction
/// rounds.
pub fn compress_pdf_bytes(input_bytes: &[u8], compression_level: u8) -> (result: Result<Vec<u8>, CompressionError>)
    ensures
        input_bytes@.len() == 0 <==> result matches Err(CompressionError::EmptyInput),
        input_bytes@.len() > 0 ==> spec_document_result(compression_level, DEFAULT_ROUNDS, result),
        result matches Ok(bytes) ==> has_document_header(bytes@) && bytes@.len() > 0,
{
    compress_pdf_bytes_with_rounds(input_bytes, compression_level, DEFAULT_ROUNDS)
}

} // verus!
