//! Detection of streams whose payload repeats an earlier one.
//!
//! Payloads are looked up by a fast content hash and then compared byte for
//! byte, so two streams count as duplicates only if their bytes are equal,
//! whatever the hashes are.

use crate::container::{id_before, object_ids, stream_payload, stream_payloads};
use crate::hashing::{content_hashes, index_entries, index_get, index_insert, new_index};
use lopdf::Document;
use vstd::prelude::*;

verus! {

/// The payloads of a list of buffers.
pub open spec fn spec_contents(buffers: Seq<Vec<u8>>) -> Seq<Seq<u8>> {
    Seq::new(buffers.len(), |i: int| buffers[i]@)
}

/// Whether the buffer at `earlier` comes before the one at `later` and has
/// the same hash and the same bytes.
pub open spec fn spec_repeats(contents: Seq<Seq<u8>>, hashes: Seq<u64>, earlier: int, later: int) -> bool {
    0 <= earlier < later < contents.len() && hashes[earlier] == hashes[later] && contents[earlier]
        == contents[later]
}

/// Whether the buffer at `position` repeats an earlier one.
pub open spec fn spec_is_duplicate(contents: Seq<Seq<u8>>, hashes: Seq<u64>, position: int) -> bool {
    exists|earlier: int| spec_repeats(contents, hashes, earlier, position)
}

/// Whether `canonical` is the first buffer that the one at `position`
/// repeats.
pub open spec fn spec_is_canonical(
    contents: Seq<Seq<u8>>,
    hashes: Seq<u64>,
    canonical: int,
    position: int,
) -> bool {
    spec_repeats(contents, hashes, canonical, position) && forall|earlier: int|
        0 <= earlier < canonical ==> !spec_repeats(contents, hashes, earlier, position)
}

/// How many of the first `upto` buffers repeat an earlier one.
pub open spec fn spec_duplicate_count(contents: Seq<Seq<u8>>, hashes: Seq<u64>, upto: int) -> nat
    decreases upto,
{
    if upto <= 0 {
        0
    } else {
        spec_duplicate_count(contents, hashes, upto - 1) + if spec_is_duplicate(contents, hashes, upto - 1) {
            1nat
        } else {
            0nat
        }
    }
}

/// Hashes that go with the contents: equal bytes have equal hashes.
pub open spec fn spec_hashes_agree(contents: Seq<Seq<u8>>, hashes: Seq<u64>) -> bool {
    hashes.len() == contents.len() && forall|i: int, j: int|
        0 <= i < contents.len() && 0 <= j < contents.len() && contents[i] == contents[j] ==> hashes[i]
            == hashes[j]
}

/// Whether two buffers hold the same bytes.
pub fn bytes_equal(left: &[u8], right: &[u8]) -> (equal: bool)
    ensures
        equal == (left@ == right@),
{
    if left.len() != right.len() {
        return false;
    }
    let mut i: usize = 0;
    while i < left.len()
        invariant
            left@.len() == right@.len(),
            i <= left@.len(),
            forall|k: int| 0 <= k < i ==> left@[k] == right@[k],
        decreases left@.len() - i,
    {
        if left[i] != right[i] {
            return false;
        }
        i = i + 1;
    }
    assert(left@ =~= right@);
    true
}

/// Finds the first buffer at or after `from` and before `position` that the
/// buffer at `position` repeats.
fn scan_for_repeat(buffers: &Vec<Vec<u8>>, hashes: &Vec<u64>, from: usize, position: usize) -> (found: Option<
    usize,
>)
    requires
        hashes@.len() == buffers@.len(),
        from <= position < buffers@.len(),
        forall|earlier: int|
            0 <= earlier < from ==> !spec_repeats(spec_contents(buffers@), hashes@, earlier, position as int),
    ensures
        match found {
            Some(canonical) => spec_is_canonical(
                spec_contents(buffers@),
                hashes@,
                canonical as int,
                position as int,
            ),
            None => !spec_is_duplicate(spec_contents(buffers@), hashes@, position as int),
        },
{
    let mut j: usize = from;
    while j < position
        invariant
            hashes@.len() == buffers@.len(),
            from <= j <= position < buffers@.len(),
            forall|earlier: int|
                0 <= earlier < j ==> !spec_repeats(spec_contents(buffers@), hashes@, earlier, position as int),
        decreases position - j,
    {
        if hashes[j] == hashes[position] && bytes_equal(buffers[j].as_slice(), buffers[position].as_slice()) {
            return Some(j);
        }
        j = j + 1;
    }
    None
}

/// Finds every buffer that repeats an earlier one. Each is reported once,
/// in order, together with the first buffer that it repeats. `hashes` holds
/// one hash per buffer; it only speeds the search up, and a buffer is never
/// reported unless its bytes were compared and found equal.
pub fn find_duplicates(buffers: &Vec<Vec<u8>>, hashes: &Vec<u64>) -> (pairs: Vec<(usize, usize)>)
    requires
        hashes@.len() == buffers@.len(),
    ensures
        pairs@.len() == spec_duplicate_count(spec_contents(buffers@), hashes@, buffers@.len() as int),
        forall|k: int|
            0 <= k < pairs@.len() ==> spec_is_canonical(
                spec_contents(buffers@),
                hashes@,
                (#[trigger] pairs@[k]).1 as int,
                pairs@[k].0 as int,
            ),
        forall|k: int, l: int| 0 <= k < l < pairs@.len() ==> pairs@[k].0 < pairs@[l].0,
        forall|position: int|
            0 <= position < buffers@.len() ==> (spec_is_duplicate(
                spec_contents(buffers@),
                hashes@,
                position,
            ) <==> exists|k: int| 0 <= k < pairs@.len() && (#[trigger] pairs@[k]).0 == position),
{
    let ghost contents = spec_contents(buffers@);
    let mut index = new_index();
    let mut pairs: Vec<(usize, usize)> = Vec::new();
    let mut i: usize = 0;
    while i < buffers.len()
        invariant
            contents == spec_contents(buffers@),
            hashes@.len() == buffers@.len(),
            i <= buffers@.len(),
            forall|h: u64|
                index_entries(index).contains_key(h) <==> exists|j: int|
                    0 <= j < i && #[trigger] hashes@[j] == h,
            forall|h: u64| #[trigger]
                index_entries(index).contains_key(h) ==> {
                    let first = index_entries(index)[h];
                    &&& first < i
                    &&& hashes@[first as int] == h
                    &&& forall|j: int| 0 <= j < first ==> hashes@[j] != h
                },
            pairs@.len() == spec_duplicate_count(contents, hashes@, i as int),
            forall|k: int|
                0 <= k < pairs@.len() ==> (#[trigger] pairs@[k]).0 < i && spec_is_canonical(
                    contents,
                    hashes@,
                    pairs@[k].1 as int,
                    pairs@[k].0 as int,
                ),
            forall|k: int, l: int| 0 <= k < l < pairs@.len() ==> pairs@[k].0 < pairs@[l].0,
            forall|position: int|
                0 <= position < i ==> (spec_is_duplicate(contents, hashes@, position) <==> exists|k: int|
                    0 <= k < pairs@.len() && (#[trigger] pairs@[k]).0 == position),
        decreases buffers@.len() - i,
    {
        let hash: u64 = hashes[i];
        let ghost old_pairs = pairs@;
        let found: Option<usize> = match index_get(&index, hash) {
            None => {
                index_insert(&mut index, hash, i);
                assert(!spec_is_duplicate(contents, hashes@, i as int)) by {
                    if spec_is_duplicate(contents, hashes@, i as int) {
                        let earlier = choose|earlier: int| spec_repeats(contents, hashes@, earlier, i as int);
                        assert(hashes@[earlier] == hash);
                    }
                }
                None
            },
            Some(first) => {
                assert(hashes@[i as int] == hash);
                scan_for_repeat(buffers, hashes, first, i)
            },
        };
        match found {
            Some(canonical) => {
                pairs.push((i, canonical));
                assert(spec_is_duplicate(contents, hashes@, i as int));
                assert(forall|k: int| 0 <= k < old_pairs.len() ==> pairs@[k] == old_pairs[k]);
                assert(pairs@[old_pairs.len() as int].0 == i);
            },
            None => {},
        }
        assert forall|position: int| 0 <= position < i + 1 implies (spec_is_duplicate(
            contents,
            hashes@,
            position,
        ) <==> exists|k: int| 0 <= k < pairs@.len() && (#[trigger] pairs@[k]).0 == position) by {
            if position < i {
                if spec_is_duplicate(contents, hashes@, position) {
                    let k = choose|k: int| 0 <= k < old_pairs.len() && (#[trigger] old_pairs[k]).0 == position;
                    assert(pairs@[k].0 == position);
                }
                if exists|k: int| 0 <= k < pairs@.len() && (#[trigger] pairs@[k]).0 == position {
                    let k = choose|k: int| 0 <= k < pairs@.len() && (#[trigger] pairs@[k]).0 == position;
                    assert(k < old_pairs.len());
                    assert(old_pairs[k].0 == position);
                }
            } else {
                if found is Some {
                    assert(pairs@[old_pairs.len() as int].0 == position);
                }
            }
        }
        i = i + 1;
    }
    pairs
}

/// Whether `canonical` is the first stream of a document that holds the
/// bytes of `duplicate`, and comes before it.
pub open spec fn spec_is_first_copy(
    payloads: Map<(u32, u16), Seq<u8>>,
    canonical: (u32, u16),
    duplicate: (u32, u16),
) -> bool {
    &&& payloads.contains_key(canonical)
    &&& payloads.contains_key(duplicate)
    &&& id_before(canonical, duplicate)
    &&& payloads[canonical] == payloads[duplicate]
    &&& forall|earlier: (u32, u16)|
        payloads.contains_key(earlier) && #[trigger] id_before(earlier, canonical) ==> payloads[earlier]
            != payloads[canonical]
}

/// Whether a stream of a document holds the bytes of a stream that comes
/// before it.
pub open spec fn spec_repeats_earlier(payloads: Map<(u32, u16), Seq<u8>>, duplicate: (u32, u16)) -> bool {
    exists|earlier: (u32, u16)|
        payloads.contains_key(earlier) && payloads.contains_key(duplicate) && #[trigger] id_before(
            earlier,
            duplicate,
        ) && payloads[earlier] == payloads[duplicate]
}

/// Whether a list of identifiers is in ascending order.
#[verifier::opaque]
pub open spec fn spec_ascending(ids: Seq<(u32, u16)>) -> bool {
    forall|k: int, l: int| 0 <= k < l < ids.len() ==> id_before(#[trigger] ids[k], #[trigger] ids[l])
}

/// Whether `ids` and `buffers` list the streams of a document: every stream
/// once, in ascending order, each with its payload.
pub open spec fn spec_lists_streams(
    payloads: Map<(u32, u16), Seq<u8>>,
    ids: Seq<(u32, u16)>,
    buffers: Seq<Vec<u8>>,
) -> bool {
    &&& ids.len() == buffers.len()
    &&& spec_ascending(ids)
    &&& forall|k: int|
        0 <= k < ids.len() ==> payloads.contains_key(#[trigger] ids[k]) && buffers[k]@ == payloads[ids[k]]
    &&& forall|id: (u32, u16)|
        payloads.contains_key(id) ==> exists|k: int| 0 <= k < ids.len() && #[trigger] ids[k] == id
}

/// The streams of a document that hold the bytes of a stream that comes
/// before them.
pub open spec fn spec_duplicate_ids(payloads: Map<(u32, u16), Seq<u8>>) -> Set<(u32, u16)> {
    Set::new(|duplicate: (u32, u16)| spec_repeats_earlier(payloads, duplicate))
}

/// A list of pairs that reports every repeat once, each with its first
/// copy, is as long as there are repeats.
proof fn lemma_pairs_count(payloads: Map<(u32, u16), Seq<u8>>, pairs: Seq<((u32, u16), (u32, u16))>)
    requires
        forall|k: int| 0 <= k < pairs.len() ==> spec_is_first_copy(payloads, (#[trigger] pairs[k]).1, pairs[k].0),
        forall|k: int, l: int|
            0 <= k < l < pairs.len() ==> id_before((#[trigger] pairs[k]).0, (#[trigger] pairs[l]).0),
        forall|duplicate: (u32, u16)| #[trigger]
            spec_repeats_earlier(payloads, duplicate) ==> exists|k: int|
                0 <= k < pairs.len() && (#[trigger] pairs[k]).0 == duplicate,
    ensures
        spec_duplicate_ids(payloads).finite(),
        spec_duplicate_ids(payloads).len() == pairs.len(),
{
    let duplicates = Seq::new(pairs.len(), |k: int| pairs[k].0);
    assert(duplicates.no_duplicates()) by {
        assert forall|k: int, l: int| 0 <= k < duplicates.len() && 0 <= l < duplicates.len() && k
            != l implies duplicates[k] != duplicates[l] by {
            if k < l {
                assert(id_before(pairs[k].0, pairs[l].0));
            } else {
                assert(id_before(pairs[l].0, pairs[k].0));
            }
        }
    }
    assert(duplicates.to_set() =~= spec_duplicate_ids(payloads)) by {
        assert forall|id: (u32, u16)| duplicates.to_set().contains(id) == spec_duplicate_ids(payloads).contains(
            id,
        ) by {
            if duplicates.to_set().contains(id) {
                let k = choose|k: int| 0 <= k < duplicates.len() && duplicates[k] == id;
                assert(spec_is_first_copy(payloads, pairs[k].1, pairs[k].0));
                assert(id_before(pairs[k].1, id));
            }
            if spec_repeats_earlier(payloads, id) {
                let k = choose|k: int| 0 <= k < pairs.len() && (#[trigger] pairs[k]).0 == id;
                assert(duplicates[k] == id);
            }
        }
    }
    duplicates.unique_seq_to_set();
}

/// In a list in ascending order, an entry that comes before another in the
/// order of identifiers also comes before it in the list, and the other way
/// round.
proof fn lemma_order_is_position(ids: Seq<(u32, u16)>, first: int, second: int)
    requires
        spec_ascending(ids),
        0 <= first < ids.len(),
        0 <= second < ids.len(),
    ensures
        id_before(ids[first], ids[second]) <==> first < second,
{
    reveal(spec_ascending);
    if second < first {
        assert(id_before(ids[second], ids[first]));
    }
    if first < second {
        assert(id_before(ids[first], ids[second]));
    }
}

/// A list in ascending order stays so when an identifier that comes after
/// all of its entries is put at its end.
proof fn lemma_ascending_push(ids: Seq<(u32, u16)>, id: (u32, u16))
    requires
        spec_ascending(ids),
        forall|k: int| 0 <= k < ids.len() ==> id_before(#[trigger] ids[k], id),
    ensures
        spec_ascending(ids.push(id)),
{
    reveal(spec_ascending);
}

/// Lists the streams of a document with their payloads, in ascending order
/// of their identifiers.
fn list_streams(doc: &Document) -> (listed: (Vec<(u32, u16)>, Vec<Vec<u8>>))
    ensures
        spec_lists_streams(stream_payloads(*doc), listed.0@, listed.1@),
{
    let ghost payloads = stream_payloads(*doc);
    let ids = object_ids(doc);
    let mut stream_ids: Vec<(u32, u16)> = Vec::new();
    let mut buffers: Vec<Vec<u8>> = Vec::new();
    let mut i: usize = 0;
    proof {
        reveal(spec_ascending);
    }
    while i < ids.len()
        invariant
            payloads == stream_payloads(*doc),
            i <= ids@.len(),
            forall|a: int, b: int| 0 <= a < b < ids@.len() ==> id_before(#[trigger] ids@[a], #[trigger] ids@[b]),
            forall|id: (u32, u16)| payloads.contains_key(id) ==> ids@.contains(id),
            stream_ids@.len() == buffers@.len(),
            spec_ascending(stream_ids@),
            forall|k: int|
                0 <= k < stream_ids@.len() ==> payloads.contains_key(#[trigger] stream_ids@[k])
                    && buffers@[k]@ == payloads[stream_ids@[k]],
            forall|k: int|
                0 <= k < stream_ids@.len() ==> exists|j: int|
                    0 <= j < i && ids@[j] == #[trigger] stream_ids@[k],
            forall|j: int|
                0 <= j < i && payloads.contains_key(#[trigger] ids@[j]) ==> exists|k: int|
                    0 <= k < stream_ids@.len() && #[trigger] stream_ids@[k] == ids@[j],
        decreases ids@.len() - i,
    {
        let id = ids[i];
        let ghost before = stream_ids@;
        match stream_payload(doc, id) {
            Some(payload) => {
                proof {
                    assert forall|k: int| 0 <= k < before.len() implies id_before(#[trigger] before[k], id) by {
                        let j = choose|j: int| 0 <= j < i && ids@[j] == before[k];
                        assert(id_before(ids@[j], ids@[i as int]));
                    }
                    lemma_ascending_push(before, id);
                }
                stream_ids.push(id);
                buffers.push(payload);
                assert(stream_ids@[before.len() as int] == ids@[i as int]);
            },
            None => {},
        }
        assert forall|j: int| 0 <= j < i + 1 && payloads.contains_key(#[trigger] ids@[j]) implies exists|k: int|
            0 <= k < stream_ids@.len() && #[trigger] stream_ids@[k] == ids@[j] by {
            if j < i {
                let k = choose|k: int| 0 <= k < before.len() && #[trigger] before[k] == ids@[j];
                assert(stream_ids@[k] == ids@[j]);
            } else {
                assert(stream_ids@[before.len() as int] == ids@[j]);
            }
        }
        i = i + 1;
    }
    proof {
        assert forall|id: (u32, u16)| payloads.contains_key(id) implies exists|k: int|
            0 <= k < stream_ids@.len() && #[trigger] stream_ids@[k] == id by {
            assert(ids@.contains(id));
            let j = choose|j: int| 0 <= j < ids@.len() && ids@[j] == id;
            assert(payloads.contains_key(ids@[j]));
        }
    }
    (stream_ids, buffers)
}

/// The canonical buffer of a repeat stands for the first stream of the
/// document that holds the same bytes.
proof fn lemma_canonical_is_first_copy(
    payloads: Map<(u32, u16), Seq<u8>>,
    ids: Seq<(u32, u16)>,
    buffers: Seq<Vec<u8>>,
    hashes: Seq<u64>,
    canonical: int,
    position: int,
)
    requires
        spec_lists_streams(payloads, ids, buffers),
        spec_hashes_agree(spec_contents(buffers), hashes),
        spec_is_canonical(spec_contents(buffers), hashes, canonical, position),
    ensures
        spec_is_first_copy(payloads, ids[canonical], ids[position]),
{
    let contents = spec_contents(buffers);
    assert(contents[position] == buffers[position]@);
    assert(contents[canonical] == buffers[canonical]@);
    lemma_order_is_position(ids, canonical, position);
    assert(payloads.contains_key(ids[canonical]));
    assert(payloads.contains_key(ids[position]));
    assert forall|earlier: (u32, u16)|
        payloads.contains_key(earlier) && #[trigger] id_before(earlier, ids[canonical]) implies payloads[earlier]
        != payloads[ids[canonical]] by {
        let e = choose|e: int| 0 <= e < ids.len() && #[trigger] ids[e] == earlier;
        lemma_order_is_position(ids, e, canonical);
        if payloads[earlier] == payloads[ids[canonical]] {
            assert(contents[e] == buffers[e]@);
            assert(contents[e] == contents[position]);
            assert(hashes[e] == hashes[position]);
            assert(spec_repeats(contents, hashes, e, position));
        }
    }
}

/// A stream that holds the bytes of an earlier stream of the document is a
/// repeat among the listed buffers.
proof fn lemma_repeat_is_listed(
    payloads: Map<(u32, u16), Seq<u8>>,
    ids: Seq<(u32, u16)>,
    buffers: Seq<Vec<u8>>,
    hashes: Seq<u64>,
    duplicate: (u32, u16),
) -> (position: int)
    requires
        spec_lists_streams(payloads, ids, buffers),
        spec_hashes_agree(spec_contents(buffers), hashes),
        spec_repeats_earlier(payloads, duplicate),
    ensures
        0 <= position < ids.len(),
        ids[position] == duplicate,
        spec_is_duplicate(spec_contents(buffers), hashes, position),
{
    let contents = spec_contents(buffers);
    let earlier = choose|earlier: (u32, u16)|
        payloads.contains_key(earlier) && payloads.contains_key(duplicate) && #[trigger] id_before(
            earlier,
            duplicate,
        ) && payloads[earlier] == payloads[duplicate];
    let e = choose|e: int| 0 <= e < ids.len() && #[trigger] ids[e] == earlier;
    let d = choose|d: int| 0 <= d < ids.len() && #[trigger] ids[d] == duplicate;
    lemma_order_is_position(ids, e, d);
    assert(contents[e] == buffers[e]@);
    assert(contents[d] == buffers[d]@);
    assert(hashes[e] == hashes[d]);
    assert(spec_repeats(contents, hashes, e, d));
    d
}

/// Finds the streams of a document whose payload repeats that of an earlier
/// stream, in the order of their identifiers, each with the first stream
/// that holds the same bytes. A stream is reported if and only if its bytes
/// are those of a stream that comes before it, and it is reported once.
/// The document is only read: rewriting references is left to the container
/// library's pruning.
pub fn remove_duplicate_objects(doc: &Document) -> (pairs: Vec<((u32, u16), (u32, u16))>)
    ensures
        forall|k: int|
            0 <= k < pairs@.len() ==> spec_is_first_copy(
                stream_payloads(*doc),
                (#[trigger] pairs@[k]).1,
                pairs@[k].0,
            ),
        forall|k: int, l: int|
            0 <= k < l < pairs@.len() ==> id_before((#[trigger] pairs@[k]).0, (#[trigger] pairs@[l]).0),
        forall|duplicate: (u32, u16)| #[trigger]
            spec_repeats_earlier(stream_payloads(*doc), duplicate) ==> exists|k: int|
                0 <= k < pairs@.len() && (#[trigger] pairs@[k]).0 == duplicate,
        pairs@.len() == spec_duplicate_ids(stream_payloads(*doc)).len(),
{
    let ghost payloads = stream_payloads(*doc);
    let (stream_ids, buffers) = list_streams(doc);
    let hashes = content_hashes(&buffers);
    let ghost contents = spec_contents(buffers@);
    proof {
        assert(spec_hashes_agree(contents, hashes@)) by {
            assert forall|a: int, b: int|
                0 <= a < contents.len() && 0 <= b < contents.len() && contents[a] == contents[b] implies hashes@[a]
                == hashes@[b] by {
                assert(buffers@[a]@ == buffers@[b]@);
            }
        }
    }
    let found = find_duplicates(&buffers, &hashes);
    let mut pairs: Vec<((u32, u16), (u32, u16))> = Vec::new();
    let mut k: usize = 0;
    while k < found.len()
        invariant
            k <= found@.len(),
            stream_ids@.len() == buffers@.len() == hashes@.len(),
            contents == spec_contents(buffers@),
            forall|m: int|
                0 <= m < found@.len() ==> spec_is_canonical(
                    contents,
                    hashes@,
                    (#[trigger] found@[m]).1 as int,
                    found@[m].0 as int,
                ),
            pairs@.len() == k,
            forall|m: int|
                0 <= m < pairs@.len() ==> (#[trigger] pairs@[m]).0 == stream_ids@[found@[m].0 as int]
                    && pairs@[m].1 == stream_ids@[found@[m].1 as int],
        decreases found@.len() - k,
    {
        let (position, canonical) = found[k];
        assert(spec_is_canonical(contents, hashes@, found@[k as int].1 as int, found@[k as int].0 as int));
        pairs.push((stream_ids[position], stream_ids[canonical]));
        k = k + 1;
    }
    proof {
        assert forall|m: int| 0 <= m < pairs@.len() implies spec_is_first_copy(
            payloads,
            (#[trigger] pairs@[m]).1,
            pairs@[m].0,
        ) by {
            assert(spec_is_canonical(contents, hashes@, found@[m].1 as int, found@[m].0 as int));
            lemma_canonical_is_first_copy(
                payloads,
                stream_ids@,
                buffers@,
                hashes@,
                found@[m].1 as int,
                found@[m].0 as int,
            );
        }
        assert forall|m: int, l: int| 0 <= m < l < pairs@.len() implies id_before(
            (#[trigger] pairs@[m]).0,
            (#[trigger] pairs@[l]).0,
        ) by {
            assert(found@[m].0 < found@[l].0);
            assert(spec_is_canonical(contents, hashes@, found@[m].1 as int, found@[m].0 as int));
            assert(spec_is_canonical(contents, hashes@, found@[l].1 as int, found@[l].0 as int));
            lemma_order_is_position(stream_ids@, found@[m].0 as int, found@[l].0 as int);
        }
        assert forall|duplicate: (u32, u16)| #[trigger] spec_repeats_earlier(payloads, duplicate) implies exists|
            m: int,
        | 0 <= m < pairs@.len() && (#[trigger] pairs@[m]).0 == duplicate by {
            let d = lemma_repeat_is_listed(payloads, stream_ids@, buffers@, hashes@, duplicate);
            let m = choose|m: int| 0 <= m < found@.len() && (#[trigger] found@[m]).0 == d;
            assert(pairs@[m].0 == duplicate);
        }
        lemma_pairs_count(payloads, pairs@);
    }
    pairs
}

/// Two equal payloads are always found: where hashes agree with the
/// contents and some buffer has the same bytes as an earlier one, at least
/// one duplicate is counted.
pub proof fn lemma_equal_payloads_are_counted(
    contents: Seq<Seq<u8>>,
    hashes: Seq<u64>,
    earlier: int,
    later: int,
)
    requires
        spec_hashes_agree(contents, hashes),
        0 <= earlier < later < contents.len(),
        contents[earlier] == contents[later],
    ensures
        spec_duplicate_count(contents, hashes, contents.len() as int) >= 1,
{
    assert(spec_repeats(contents, hashes, earlier, later));
    assert(spec_is_duplicate(contents, hashes, later));
    lemma_count_is_monotonic(contents, hashes, later + 1, contents.len() as int);
}

/// The count of duplicates among the first buffers never falls as more
/// buffers are taken in.
pub proof fn lemma_count_is_monotonic(contents: Seq<Seq<u8>>, hashes: Seq<u64>, fewer: int, more: int)
    requires
        fewer <= more,
    ensures
        spec_duplicate_count(contents, hashes, fewer) <= spec_duplicate_count(contents, hashes, more),
    decreases more - fewer,
{
    if fewer < more {
        lemma_count_is_monotonic(contents, hashes, fewer, more - 1);
    }
}

} // verus!
