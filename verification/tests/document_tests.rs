use lopdf::{Dictionary, Document, Object, Stream};
use pdfcompressor::coordinator::{collect_units, compress_all_streams};
use pdfcompressor::dedup::remove_duplicate_objects;
use pdfcompressor::driver::{
    compaction_round, compress_document, compress_parsed, compress_pdf_bytes, compress_pdf_bytes_with_rounds,
    effective_rounds, final_compaction, finish_document, strip_metadata,
};
use pdfcompressor::error::CompressionError;
use pdfcompressor::model::{CompressionSettings, FilterKind};
use std::io::{Read, Write};

fn text_bytes(len: usize) -> Vec<u8> {
    let words: [&[u8]; 6] = [b"stream ", b"object ", b"page ", b"font ", b"q 1 0 0 1 ", b"Tj ET BT "];
    let mut out = Vec::new();
    let mut state: u32 = 2024;
    while out.len() < len {
        state = state.wrapping_mul(1103515245).wrapping_add(12345);
        out.extend_from_slice(words[(state >> 16) as usize % words.len()]);
    }
    out.truncate(len);
    out
}

fn gradient_rgb(width: u32, height: u32) -> Vec<u8> {
    let mut out = Vec::new();
    for y in 0..height {
        for x in 0..width {
            out.push((x * 255 / width) as u8);
            out.push((y * 255 / height) as u8);
            out.push(128);
        }
    }
    out
}

fn unzlib(data: &[u8]) -> Vec<u8> {
    let mut out = Vec::new();
    flate2::read::ZlibDecoder::new(data).read_to_end(&mut out).unwrap();
    out
}

fn zlib(data: &[u8], level: u32) -> Vec<u8> {
    let mut encoder = flate2::write::ZlibEncoder::new(Vec::new(), flate2::Compression::new(level));
    encoder.write_all(data).unwrap();
    encoder.finish().unwrap()
}

/// A one-page document whose page content is `content`, with more streams hung on the page.
fn document_with(content: Vec<u8>, extra: Vec<Stream>) -> (Document, Vec<(u32, u16)>) {
    let mut doc = Document::with_version("1.5");
    let pages_id = doc.new_object_id();
    let content_id = doc.add_object(Stream::new(Dictionary::new(), content));
    let mut page = Dictionary::from_iter(vec![
        ("Type", Object::Name(b"Page".to_vec())),
        ("Parent", Object::Reference(pages_id)),
        ("Contents", Object::Reference(content_id)),
    ]);
    let mut ids = vec![content_id];
    let mut attached = Dictionary::new();
    for (i, stream) in extra.into_iter().enumerate() {
        let id = doc.add_object(stream);
        attached.set(format!("X{}", i), Object::Reference(id));
        ids.push(id);
    }
    page.set("Resources", Dictionary::from_iter(vec![("XObject", Object::Dictionary(attached))]));
    let page_id = doc.add_object(page);
    doc.objects.insert(
        pages_id,
        Dictionary::from_iter(vec![
            ("Type", Object::Name(b"Pages".to_vec())),
            ("Kids", Object::Array(vec![Object::Reference(page_id)])),
            ("Count", Object::Integer(1)),
        ])
        .into(),
    );
    let catalog_id = doc.add_object(Dictionary::from_iter(vec![
        ("Type", Object::Name(b"Catalog".to_vec())),
        ("Pages", Object::Reference(pages_id)),
    ]));
    doc.trailer.set("Root", Object::Reference(catalog_id));
    (doc, ids)
}

fn image_stream(width: u32, height: u32, samples: Vec<u8>) -> Stream {
    let mut dict = Dictionary::new();
    dict.set("Type", Object::Name(b"XObject".to_vec()));
    dict.set("Subtype", Object::Name(b"Image".to_vec()));
    dict.set("Width", Object::Integer(width as i64));
    dict.set("Height", Object::Integer(height as i64));
    dict.set("ColorSpace", Object::Name(b"DeviceGray".to_vec()));
    dict.set("BitsPerComponent", Object::Integer(8));
    Stream::new(dict, samples)
}

fn stream_of(doc: &Document, id: (u32, u16)) -> &Stream {
    doc.get_object(id).unwrap().as_stream().unwrap()
}

fn stream_lengths(doc: &Document) -> Vec<((u32, u16), usize)> {
    doc.objects
        .iter()
        .filter_map(|(id, object)| object.as_stream().ok().map(|stream| (*id, stream.content.len())))
        .collect()
}

fn save(doc: &mut Document) -> Vec<u8> {
    let mut out = Vec::new();
    doc.save_to(&mut out).unwrap();
    out
}

#[test]
fn collect_units_reads_every_stream_once() {
    let raw = gradient_rgb(20, 10);
    let mut flate_dict = Dictionary::new();
    flate_dict.set("Filter", Object::Name(b"FlateDecode".to_vec()));
    flate_dict.set("DecodeParms", Dictionary::from_iter(vec![("Predictor", Object::Integer(1))]));
    let mut chain_dict = Dictionary::new();
    chain_dict.set(
        "Filter",
        Object::Array(vec![Object::Name(b"ASCIIHexDecode".to_vec()), Object::Name(b"FlateDecode".to_vec())]),
    );
    let (doc, ids) = document_with(
        b"BT ET".to_vec(),
        vec![
            image_stream(20, 10, raw.clone()),
            Stream::new(flate_dict, zlib(b"hello hello hello", 6)),
            Stream::new(chain_dict, b"00>".to_vec()),
        ],
    );
    let units = collect_units(&doc);
    assert_eq!(units.len(), 4);
    let mut seen: Vec<(u32, u16)> = units.iter().map(|unit| unit.id).collect();
    seen.sort();
    let mut expected = ids.clone();
    expected.sort();
    assert_eq!(seen, expected);

    let content = units.iter().find(|unit| unit.id == ids[0]).unwrap();
    assert_eq!(content.content, b"BT ET");
    assert!(!content.is_image);
    assert_eq!(content.filter, FilterKind::Absent);
    assert_eq!(content.filter_chain, None);
    assert_eq!(content.decoded, None);
    assert_eq!((content.width, content.height, content.bits_per_component), (None, None, None));

    let image = units.iter().find(|unit| unit.id == ids[1]).unwrap();
    assert!(image.is_image);
    assert_eq!((image.width, image.height, image.bits_per_component), (Some(20), Some(10), Some(8)));
    assert_eq!(image.content, raw);
    assert_eq!(image.decoded, None);

    let flate = units.iter().find(|unit| unit.id == ids[2]).unwrap();
    assert_eq!(flate.filter, FilterKind::Flate);
    assert_eq!(flate.filter_chain, Some(vec![b"FlateDecode".to_vec()]));
    assert!(flate.has_decode_parms);
    assert_eq!(flate.decoded.as_deref(), Some(&b"hello hello hello"[..]));

    let chain = units.iter().find(|unit| unit.id == ids[3]).unwrap();
    assert_eq!(chain.filter, FilterKind::Chain);
    assert_eq!(chain.filter_chain, Some(vec![b"ASCIIHexDecode".to_vec(), b"FlateDecode".to_vec()]));
    assert!(!chain.has_decode_parms);
}

#[test]
fn duplicate_streams_are_found_by_their_bytes() {
    let twin = text_bytes(500);
    let (doc, ids) = document_with(
        b"BT ET".to_vec(),
        vec![
            Stream::new(Dictionary::new(), twin.clone()),
            Stream::new(Dictionary::new(), text_bytes(400)),
            Stream::new(Dictionary::new(), twin.clone()),
            Stream::new(Dictionary::new(), twin.clone()),
        ],
    );
    let pairs = remove_duplicate_objects(&doc);
    assert_eq!(pairs, vec![(ids[3], ids[1]), (ids[4], ids[1])]);
    assert!(pairs.len() >= 1);
    // the document is only read
    assert_eq!(stream_lengths(&doc).len(), 5);

    let (plain, _) = document_with(b"BT ET".to_vec(), vec![Stream::new(Dictionary::new(), text_bytes(400))]);
    assert!(remove_duplicate_objects(&plain).is_empty());
    assert!(remove_duplicate_objects(&Document::with_version("1.5")).is_empty());
}

#[test]
fn compress_all_streams_replaces_only_what_shrinks() {
    let text = text_bytes(8000);
    let samples: Vec<u8> = (0..80u32 * 60).map(|i| (i % 80 * 3) as u8).collect();
    let (mut doc, ids) = document_with(
        text.clone(),
        vec![image_stream(80, 60, samples.clone()), Stream::new(Dictionary::new(), b"tiny".to_vec())],
    );
    let before = stream_lengths(&doc);
    let report = compress_all_streams(&mut doc, &CompressionSettings { quality: 50 });
    let after = stream_lengths(&doc);

    assert_eq!(report.streams, 3);
    assert_eq!(report.images, 1);
    assert_eq!(report.replaced, 2);
    assert_eq!(before.len(), after.len());
    let mut saved = 0usize;
    for ((id_before, len_before), (id_after, len_after)) in before.iter().zip(after.iter()) {
        assert_eq!(id_before, id_after);
        assert!(len_after <= len_before);
        saved += len_before - len_after;
    }
    assert_eq!(report.bytes_saved, saved as u128);

    // the text stream is a deflate stream of the same text now
    let content = stream_of(&doc, ids[0]);
    assert_eq!(content.dict.get(b"Filter").unwrap().as_name().unwrap(), b"FlateDecode");
    assert_eq!(content.dict.get(b"Length").unwrap().as_i64().unwrap(), content.content.len() as i64);
    assert_eq!(unzlib(&content.content), text);
    assert_eq!(content.decompressed_content().unwrap(), text);

    // the image is a JPEG now, in device RGB, with its size unchanged
    let image = stream_of(&doc, ids[1]);
    assert_eq!(image.dict.get(b"Filter").unwrap().as_name().unwrap(), b"DCTDecode");
    assert_eq!(image.dict.get(b"ColorSpace").unwrap().as_name().unwrap(), b"DeviceRGB");
    assert_eq!(image.dict.get(b"Width").unwrap().as_i64().unwrap(), 80);
    assert_eq!(image.dict.get(b"Height").unwrap().as_i64().unwrap(), 60);
    assert_eq!(image.dict.get(b"Length").unwrap().as_i64().unwrap(), image.content.len() as i64);
    assert!(image.content.len() < samples.len());
    let decoded = image::load_from_memory(&image.content).unwrap();
    assert_eq!((decoded.width(), decoded.height()), (80, 60));

    // the tiny stream is untouched
    let tiny = stream_of(&doc, ids[2]);
    assert_eq!(tiny.content, b"tiny");
    assert!(tiny.dict.get(b"Filter").is_err());
}

#[test]
fn compress_all_streams_updates_the_size_of_a_downsampled_image() {
    let samples = gradient_rgb(1600, 4);
    let mut dict = Dictionary::new();
    dict.set("Subtype", Object::Name(b"Image".to_vec()));
    dict.set("Width", Object::Integer(1600));
    dict.set("Height", Object::Integer(4));
    dict.set("Filter", Object::Name(b"FlateDecode".to_vec()));
    dict.set("DecodeParms", Dictionary::from_iter(vec![("Predictor", Object::Integer(1))]));
    let (mut doc, ids) = document_with(b"BT ET".to_vec(), vec![Stream::new(dict, zlib(&samples, 0))]);
    let report = compress_all_streams(&mut doc, &CompressionSettings { quality: 50 });
    assert_eq!((report.streams, report.images, report.replaced), (2, 1, 1));
    let image = stream_of(&doc, ids[1]);
    assert_eq!(image.dict.get(b"Filter").unwrap().as_name().unwrap(), b"DCTDecode");
    assert_eq!(image.dict.get(b"Width").unwrap().as_i64().unwrap(), 1200);
    assert_eq!(image.dict.get(b"Height").unwrap().as_i64().unwrap(), 3);
    assert!(image.dict.get(b"DecodeParms").is_err());
    let decoded = image::load_from_memory(&image.content).unwrap();
    assert_eq!((decoded.width(), decoded.height()), (1200, 3));
}

#[test]
fn compress_all_streams_recompresses_weakly_deflated_streams() {
    let text = text_bytes(20_000);
    let mut dict = Dictionary::new();
    dict.set("Filter", Object::Name(b"FlateDecode".to_vec()));
    dict.set("DecodeParms", Dictionary::from_iter(vec![("Predictor", Object::Integer(1))]));
    let (mut doc, ids) = document_with(b"BT ET".to_vec(), vec![Stream::new(dict, zlib(&text, 0))]);
    compress_all_streams(&mut doc, &CompressionSettings { quality: 50 });
    let stream = stream_of(&doc, ids[1]);
    assert!(stream.content.len() < 20_000);
    assert_eq!(stream.dict.get(b"Filter").unwrap().as_name().unwrap(), b"FlateDecode");
    assert!(stream.dict.get(b"DecodeParms").is_err());
    assert_eq!(stream.decompressed_content().unwrap(), text);
}

#[test]
fn compress_all_streams_puts_deflate_in_front_of_a_filter_it_cannot_invert() {
    let payload = text_bytes(10_000);
    let mut dict = Dictionary::new();
    dict.set("Filter", Object::Name(b"Crypt".to_vec()));
    let (mut doc, ids) = document_with(b"BT ET".to_vec(), vec![Stream::new(dict, payload.clone())]);
    compress_all_streams(&mut doc, &CompressionSettings { quality: 50 });
    let stream = stream_of(&doc, ids[1]);
    assert_eq!(stream.filters().unwrap(), vec![&b"FlateDecode"[..], &b"Crypt"[..]]);
    assert_eq!(stream.dict.get(b"Length").unwrap().as_i64().unwrap(), stream.content.len() as i64);
    assert_eq!(unzlib(&stream.content), payload);

    // the parameters of the old filters move one place back
    let parms = Dictionary::from_iter(vec![("Name", Object::Name(b"Identity".to_vec()))]);
    let mut dict = Dictionary::new();
    dict.set("Filter", Object::Name(b"Crypt".to_vec()));
    dict.set("DecodeParms", parms.clone());
    let (mut doc, ids) = document_with(b"BT ET".to_vec(), vec![Stream::new(dict, payload.clone())]);
    let report = compress_all_streams(&mut doc, &CompressionSettings { quality: 50 });
    assert_eq!(report.replaced, 1);
    let stream = stream_of(&doc, ids[1]);
    assert_eq!(stream.filters().unwrap(), vec![&b"FlateDecode"[..], &b"Crypt"[..]]);
    assert_eq!(
        stream.dict.get(b"DecodeParms").unwrap(),
        &Object::Array(vec![Object::Null, Object::Dictionary(parms.clone())])
    );
    assert_eq!(unzlib(&stream.content), payload);

    // parameters that are a list get the null object in front
    let mut dict = Dictionary::new();
    dict.set("Filter", Object::Array(vec![Object::Name(b"Crypt".to_vec()), Object::Name(b"Odd".to_vec())]));
    dict.set("DecodeParms", Object::Array(vec![Object::Dictionary(parms.clone()), Object::Null]));
    let (mut doc, ids) = document_with(b"BT ET".to_vec(), vec![Stream::new(dict, payload.clone())]);
    compress_all_streams(&mut doc, &CompressionSettings { quality: 50 });
    let stream = stream_of(&doc, ids[1]);
    assert_eq!(stream.filters().unwrap(), vec![&b"FlateDecode"[..], &b"Crypt"[..], &b"Odd"[..]]);
    assert_eq!(
        stream.dict.get(b"DecodeParms").unwrap(),
        &Object::Array(vec![Object::Null, Object::Dictionary(parms.clone()), Object::Null])
    );

    // parameters that are no list stood for each of several filters
    let mut dict = Dictionary::new();
    dict.set("Filter", Object::Array(vec![Object::Name(b"Crypt".to_vec()), Object::Name(b"Odd".to_vec())]));
    dict.set("DecodeParms", parms.clone());
    let (mut doc, ids) = document_with(b"BT ET".to_vec(), vec![Stream::new(dict, payload.clone())]);
    compress_all_streams(&mut doc, &CompressionSettings { quality: 50 });
    assert_eq!(
        stream_of(&doc, ids[1]).dict.get(b"DecodeParms").unwrap(),
        &Object::Array(vec![Object::Null, Object::Dictionary(parms.clone()), Object::Dictionary(parms.clone())])
    );
}

#[test]
fn a_reference_to_a_stream_is_no_stream() {
    let twin = text_bytes(3000);
    let mut xmp = Dictionary::new();
    xmp.set("Type", Object::Name(b"Metadata".to_vec()));
    let (mut doc, ids) = document_with(
        text_bytes(500),
        vec![Stream::new(Dictionary::new(), twin.clone()), Stream::new(xmp, b"<x/>".to_vec())],
    );
    let alias = doc.add_object(Object::Reference(ids[1]));
    let meta_alias = doc.add_object(Object::Reference(ids[2]));

    let units = collect_units(&doc);
    assert_eq!(units.len(), 3);
    assert!(units.iter().all(|unit| unit.id != alias && unit.id != meta_alias));
    assert!(remove_duplicate_objects(&doc).is_empty());

    let report = compress_all_streams(&mut doc, &CompressionSettings { quality: 50 });
    assert_eq!(report.streams, 3);
    assert_eq!(doc.objects.get(&alias), Some(&Object::Reference(ids[1])));

    assert_eq!(strip_metadata(&mut doc), 1);
    assert!(!doc.has_object(ids[2]));
    assert_eq!(doc.objects.get(&meta_alias), Some(&Object::Reference(ids[2])));
}

#[test]
fn an_empty_filter_list_declares_no_filter() {
    let text = text_bytes(4000);
    let mut dict = Dictionary::new();
    dict.set("Filter", Object::Array(Vec::new()));
    let (mut doc, ids) = document_with(b"BT ET".to_vec(), vec![Stream::new(dict, text.clone())]);
    let units = collect_units(&doc);
    let unit = units.iter().find(|unit| unit.id == ids[1]).unwrap();
    assert_eq!(unit.filter, FilterKind::Absent);
    assert_eq!(unit.filter_chain, Some(Vec::new()));
    assert_eq!(unit.decoded, None);
    compress_all_streams(&mut doc, &CompressionSettings { quality: 50 });
    let stream = stream_of(&doc, ids[1]);
    assert_eq!(stream.dict.get(b"Filter").unwrap().as_name().unwrap(), b"FlateDecode");
    assert_eq!(unzlib(&stream.content), text);
}

#[test]
fn compress_all_streams_leaves_other_objects_alone() {
    let (mut doc, ids) = document_with(
        text_bytes(8000),
        vec![Stream::new(Dictionary::new(), b"tiny".to_vec())],
    );
    let before = doc.clone();
    compress_all_streams(&mut doc, &CompressionSettings { quality: 50 });
    assert_eq!(doc.objects.len(), before.objects.len());
    for (id, object) in &before.objects {
        if *id != ids[0] {
            assert_eq!(doc.objects.get(id), Some(object));
        }
    }
    assert_eq!(doc.trailer, before.trailer);
}

#[test]
fn compress_pdf_bytes_goes_by_the_clamped_level() {
    let (mut doc, _) = document_with(
        text_bytes(3000),
        vec![image_stream(120, 90, (0..120u32 * 90).map(|i| (i % 120 * 2) as u8).collect())],
    );
    let input = save(&mut doc);
    assert_eq!(compress_pdf_bytes(&input, 0).unwrap(), compress_pdf_bytes(&input, 10).unwrap());
    assert_eq!(compress_pdf_bytes(&input, 100).unwrap(), compress_pdf_bytes(&input, 95).unwrap());
    assert_eq!(compress_pdf_bytes(&input, 255).unwrap(), compress_pdf_bytes(&input, 95).unwrap());
    assert!(compress_pdf_bytes(&input, 95).unwrap().starts_with(b"%PDF-"));
}

#[test]
fn strip_metadata_removes_objects_typed_as_metadata() {
    let mut xmp = Dictionary::new();
    xmp.set("Type", Object::Name(b"Metadata".to_vec()));
    xmp.set("Subtype", Object::Name(b"XML".to_vec()));
    let (mut doc, ids) = document_with(
        b"BT ET".to_vec(),
        vec![Stream::new(xmp, b"<x:xmpmeta/>".to_vec()), Stream::new(Dictionary::new(), b"keep".to_vec())],
    );
    let plain = doc.add_object(Dictionary::from_iter(vec![("Type", Object::Name(b"Metadata".to_vec()))]));
    let other = doc.add_object(Dictionary::from_iter(vec![("Type", Object::Name(b"Metadatax".to_vec()))]));
    let untyped = doc.add_object(Dictionary::from_iter(vec![("Kind", Object::Name(b"Metadata".to_vec()))]));
    let number = doc.add_object(Object::Integer(5));
    let count = doc.objects.len();

    assert_eq!(strip_metadata(&mut doc), 2);
    assert_eq!(doc.objects.len(), count - 2);
    assert!(!doc.has_object(ids[1]));
    assert!(!doc.has_object(plain));
    for id in [ids[0], ids[2], other, untyped, number] {
        assert!(doc.has_object(id));
    }
    assert_eq!(stream_of(&doc, ids[2]).content, b"keep");
    assert_eq!(strip_metadata(&mut doc), 0);
}

#[test]
fn compaction_never_grows_a_stream() {
    let (mut doc, ids) = document_with(
        text_bytes(5000),
        vec![Stream::new(Dictionary::new(), Vec::new()), Stream::new(Dictionary::new(), b"abc".to_vec())],
    );
    let orphan = doc.add_object(Stream::new(Dictionary::new(), text_bytes(100)));
    let before = stream_lengths(&doc);
    compaction_round(&mut doc);
    for (id, len) in stream_lengths(&doc) {
        let old = before.iter().find(|(old_id, _)| *old_id == id).unwrap().1;
        assert!(len <= old);
    }
    assert!(!doc.has_object(orphan));
    assert!(!doc.has_object(ids[1]));
    assert_eq!(stream_of(&doc, ids[0]).content, zlib(&text_bytes(5000), 9));
    assert_eq!(stream_of(&doc, ids[2]).content, b"abc");
    for (_, len) in stream_lengths(&doc) {
        assert!(len > 0);
    }

    let (mut doc, ids) = document_with(text_bytes(5000), vec![Stream::new(Dictionary::new(), Vec::new())]);
    let orphan = doc.add_object(Stream::new(Dictionary::new(), text_bytes(100)));
    final_compaction(&mut doc);
    assert!(doc.has_object(ids[1]));
    assert!(!doc.has_object(orphan));
    assert_eq!(stream_of(&doc, ids[0]).content, zlib(&text_bytes(5000), 9));
}

#[test]
fn compaction_takes_a_deflated_payload_only_beyond_the_margin() {
    // deflating these bytes saves something, but not more than the margin
    let mut close = vec![b'a'; 30];
    close.extend_from_slice(b"0123456789");
    let packed = zlib(&close, 9);
    assert!(packed.len() < close.len() && packed.len() + 19 >= close.len());
    let (mut doc, ids) = document_with(close.clone(), Vec::new());
    compaction_round(&mut doc);
    assert_eq!(stream_of(&doc, ids[0]).content, close);
}

#[test]
fn duplicates_are_reported_in_ascending_order_with_the_first_copy() {
    let a = text_bytes(300);
    let b = text_bytes(200);
    let (doc, ids) = document_with(
        a.clone(),
        vec![
            Stream::new(Dictionary::new(), b.clone()),
            Stream::new(Dictionary::new(), a.clone()),
            Stream::new(Dictionary::new(), b.clone()),
            Stream::new(Dictionary::new(), a.clone()),
            Stream::new(Dictionary::new(), Vec::new()),
            Stream::new(Dictionary::new(), Vec::new()),
        ],
    );
    let mut sorted = ids.clone();
    sorted.sort();
    assert_eq!(sorted, ids);
    assert_eq!(
        remove_duplicate_objects(&doc),
        vec![(ids[2], ids[0]), (ids[3], ids[1]), (ids[4], ids[0]), (ids[6], ids[5])]
    );
}

#[test]
fn compress_document_runs_the_whole_pipeline() {
    let twin = text_bytes(3000);
    let mut xmp = Dictionary::new();
    xmp.set("Type", Object::Name(b"Metadata".to_vec()));
    let (mut doc, ids) = document_with(
        text_bytes(6000),
        vec![
            Stream::new(Dictionary::new(), twin.clone()),
            Stream::new(Dictionary::new(), twin.clone()),
            Stream::new(xmp, text_bytes(1500)),
            image_stream(50, 50, vec![77; 2500]),
        ],
    );
    let before = stream_lengths(&doc);
    let report = compress_document(&mut doc, 75, 2);
    assert_eq!(report.duplicates, 1);
    assert_eq!(report.streams.streams, 5);
    assert_eq!(report.streams.images, 1);
    assert!(report.streams.replaced >= 3);
    assert_eq!(report.metadata_removed, 1);
    assert_eq!(report.rounds, 2);
    assert!(!doc.has_object(ids[3]));
    for (id, len) in stream_lengths(&doc) {
        let old = before.iter().find(|(old_id, _)| *old_id == id).unwrap().1;
        assert!(len <= old, "stream {:?} grew from {} to {}", id, old, len);
    }
    for object in doc.objects.values() {
        let dict = match object {
            Object::Dictionary(dict) => dict,
            Object::Stream(stream) => &stream.dict,
            _ => continue,
        };
        assert!(!dict.has_type(b"Metadata"));
    }
    assert_eq!(doc.get_pages().len(), 1);

    let report = compress_document(&mut Document::with_version("1.5"), 75, 9);
    assert_eq!(report.rounds, 5);
    assert_eq!(report.streams.streams, 0);
}

#[test]
fn effective_rounds_defaults_and_caps() {
    assert_eq!(effective_rounds(None), 2);
    assert_eq!(effective_rounds(Some(0)), 0);
    assert_eq!(effective_rounds(Some(1)), 1);
    assert_eq!(effective_rounds(Some(5)), 5);
    assert_eq!(effective_rounds(Some(6)), 5);
    assert_eq!(effective_rounds(Some(u32::MAX)), 5);
}

#[test]
fn finish_document_maps_the_writers_result() {
    assert_eq!(finish_document(Ok(vec![1, 2, 3])).unwrap(), vec![1, 2, 3]);
    let failed = finish_document(Err(std::io::Error::new(std::io::ErrorKind::Other, "disk full")));
    match failed {
        Err(CompressionError::SerializeFailed(text)) => assert_eq!(text, "Failed to save: disk full"),
        other => panic!("unexpected result {:?}", other),
    }
}

#[test]
fn compress_pdf_bytes_classifies_its_failures() {
    assert!(matches!(compress_pdf_bytes(&[], 75), Err(CompressionError::EmptyInput)));
    assert_eq!(compress_pdf_bytes(&[], 75).unwrap_err().message(), "Empty file");
    match compress_pdf_bytes(b"not a document", 75) {
        Err(CompressionError::ParseFailed(text)) => assert!(text.starts_with("Failed to load PDF: ")),
        other => panic!("unexpected result {:?}", other),
    }
    match compress_pdf_bytes_with_rounds(b"%PDF-1.5\n%%EOF", 75, 1) {
        Err(error @ CompressionError::ParseFailed(_)) => {
            assert!(error.message().starts_with("Failed to load PDF: "))
        }
        other => panic!("unexpected result {:?}", other),
    }
}

#[test]
fn compress_pdf_bytes_output_parses_with_the_same_pages() {
    let (mut doc, _) = document_with(
        text_bytes(6000),
        vec![image_stream(120, 90, (0..120u32 * 90).map(|i| (i % 120 * 2) as u8).collect())],
    );
    let input = save(&mut doc);
    for rounds in [0, 1, 2, 5, 50] {
        let output = compress_pdf_bytes_with_rounds(&input, 75, rounds).unwrap();
        assert!(output.starts_with(b"%PDF"));
        assert!(output.len() < input.len());
        let parsed = Document::load_mem(&output).unwrap();
        assert_eq!(parsed.get_pages().len(), 1);
        assert!(parsed.catalog().is_ok());
        let page_id = *parsed.get_pages().get(&1).unwrap();
        let mut expected = text_bytes(6000);
        expected.push(b'\n');
        assert_eq!(parsed.get_page_content(page_id), expected);
    }
    let once = compress_pdf_bytes(&input, 75).unwrap();
    let twice = compress_pdf_bytes(&once, 75).unwrap();
    let parsed = Document::load_mem(&twice).unwrap();
    assert_eq!(parsed.get_pages().len(), 1);
}

#[test]
fn compress_parsed_maps_what_the_parser_made() {
    match compress_parsed(Document::load_mem(b"not a document"), 75, 2) {
        Err(CompressionError::ParseFailed(text)) => assert!(text.starts_with("Failed to load PDF: ")),
        other => panic!("unexpected result {:?}", other),
    }
    let (mut doc, _) = document_with(text_bytes(6000), Vec::new());
    let input = save(&mut doc);
    let output = compress_parsed(Document::load_mem(&input), 75, 2).unwrap();
    assert!(output.starts_with(b"%PDF"));
    assert_eq!(output, compress_pdf_bytes(&input, 75).unwrap());
    let parsed = Document::load_mem(&output).unwrap();
    assert_eq!(parsed.get_pages().len(), 1);
}

#[test]
fn the_pipeline_keeps_the_objects_that_are_referred_to() {
    let mut info = Dictionary::new();
    info.set("Type", Object::Name(b"Metadata".to_vec()));
    let (mut doc, ids) = document_with(
        text_bytes(6000),
        vec![
            Stream::new(info, b"<xmp/>".to_vec()),
            Stream::new(Dictionary::new(), Vec::new()),
            Stream::new(Dictionary::from_iter(vec![("Kind", Object::Name(b"Plain".to_vec()))]), b"abc".to_vec()),
        ],
    );
    let orphan = doc.add_object(Stream::new(Dictionary::new(), text_bytes(100)));
    let held: Vec<(u32, u16)> = doc.objects.keys().copied().collect();
    let dictionaries: Vec<((u32, u16), Dictionary)> = doc
        .objects
        .iter()
        .filter_map(|(id, object)| object.as_dict().ok().map(|dict| (*id, dict.clone())))
        .collect();
    compress_document(&mut doc, 75, 2);
    // the metadata stream, the empty stream and the orphan are gone; every other object stays
    for id in held {
        let gone = id == ids[1] || id == ids[2] || id == orphan;
        assert_eq!(doc.has_object(id), !gone, "object {:?}", id);
    }
    // a dictionary that is no stream holds the names and integers that it held
    for (id, before) in dictionaries {
        let after = doc.get_object(id).unwrap().as_dict().unwrap();
        for (key, value) in before.iter() {
            if value.as_name().is_ok() || value.as_i64().is_ok() {
                assert_eq!(after.get(key).unwrap(), value);
            }
        }
    }
    // a stream that is too short to gain from deflate stays as it was
    let plain = stream_of(&doc, ids[3]);
    assert_eq!(plain.content, b"abc");
    assert_eq!(plain.dict.get(b"Kind").unwrap(), &Object::Name(b"Plain".to_vec()));
    // a stream that was deflated declares the filter and its new length
    let page = stream_of(&doc, ids[0]);
    assert_eq!(page.filters().unwrap(), vec![&b"FlateDecode"[..]]);
    assert_eq!(page.dict.get(b"Length").unwrap().as_i64().unwrap(), page.content.len() as i64);
    assert_eq!(unzlib(&page.content), text_bytes(6000));
    // every stream that is left declares the length of its payload
    for (id, len) in stream_lengths(&doc) {
        assert_eq!(stream_of(&doc, id).dict.get(b"Length").unwrap().as_i64().unwrap(), len as i64);
    }
}

#[test]
fn compaction_leaves_a_stream_with_a_filter_entry_alone() {
    let payload = text_bytes(5000);
    let mut dict = Dictionary::new();
    dict.set("Filter", Object::Name(b"Crypt".to_vec()));
    let (mut doc, ids) = document_with(text_bytes(5000), vec![Stream::new(dict, payload.clone())]);
    compaction_round(&mut doc);
    final_compaction(&mut doc);
    let filtered = stream_of(&doc, ids[1]);
    assert_eq!(filtered.content, payload);
    assert_eq!(filtered.dict.get(b"Filter").unwrap(), &Object::Name(b"Crypt".to_vec()));
    let plain = stream_of(&doc, ids[0]);
    assert_eq!(plain.content, zlib(&text_bytes(5000), 9));
    assert_eq!(plain.dict.get(b"Filter").unwrap(), &Object::Name(b"FlateDecode".to_vec()));
    assert_eq!(plain.dict.get(b"Length").unwrap().as_i64().unwrap(), plain.content.len() as i64);
}
