//! Reading single buffers, gzip-compressed buffers, and split corpora.

use std::io::Write;

use oscar_io::error::{Error, IoKind};
use oscar_io::new_writer::{NewWriter, PartFile};
use oscar_io::reader::{Directory, DocReader, SplitFileIter};

fn get_samples() -> &'static str {
    r#"{"content":"this is the main content","warc_headers":{"warc-type":"conversion","warc-date":"2021-09-16T11:37:01Z","warc-refers-to":"<urn:uuid:3cc5dbf1-6932-44e3-a5f9-87bddb242ed1>","warc-block-digest":"sha1:AAN5C7C7I2JOXM5ZYB5YNFPRC5N6GJES","content-type":"text/plain","warc-target-uri":"http://accueil-enfants-d-un-meme-pere.be/","content-length":"5095","warc-identified-content-language":"fra,eng","warc-record-id":"<urn:uuid:7c1c010a-61ca-4383-92ba-008390a56fc9>"},"metadata":{"identification":{"label":"fr","prob":0.9586384},"annotation":["short_sentences","header","footer"],"sentence_identifications":[{"label": "fr", "prob": 0.9}]}}
{"content":"this is the main content","warc_headers":{"warc-type":"conversion","warc-date":"2021-09-16T11:37:01Z","warc-refers-to":"<urn:uuid:3cc5dbf1-6932-44e3-a5f9-87bddb242ed1>","warc-block-digest":"sha1:AAN5C7C7I2JOXM5ZYB5YNFPRC5N6GJES","content-type":"text/plain","warc-target-uri":"http://accueil-enfants-d-un-meme-pere.be/","content-length":"5095","warc-identified-content-language":"fra,eng","warc-record-id":"<urn:uuid:7c1c010a-61ca-4383-92ba-008390a56fc9>"},"metadata":{"identification":{"label":"fr","prob":0.9586384},"annotation":["short_sentences","header","footer"],"sentence_identifications":[{"label": "fr", "prob": 0.9}]}}
{"content":"this is the main content","warc_headers":{"warc-type":"conversion","warc-date":"2021-09-16T11:37:01Z","warc-refers-to":"<urn:uuid:3cc5dbf1-6932-44e3-a5f9-87bddb242ed1>","warc-block-digest":"sha1:AAN5C7C7I2JOXM5ZYB5YNFPRC5N6GJES","content-type":"text/plain","warc-target-uri":"http://accueil-enfants-d-un-meme-pere.be/","content-length":"5095","warc-identified-content-language":"fra,eng","warc-record-id":"<urn:uuid:7c1c010a-61ca-4383-92ba-008390a56fc9>"},"metadata":{"identification":{"label":"fr","prob":0.9586384},"annotation":["short_sentences","header","footer"],"sentence_identifications":[{"label": "fr", "prob": 0.9}]}}
{"content":"this is the main content","warc_headers":{"warc-type":"conversion","warc-date":"2021-09-16T11:37:01Z","warc-refers-to":"<urn:uuid:3cc5dbf1-6932-44e3-a5f9-87bddb242ed1>","warc-block-digest":"sha1:AAN5C7C7I2JOXM5ZYB5YNFPRC5N6GJES","content-type":"text/plain","warc-target-uri":"http://accueil-enfants-d-un-meme-pere.be/","content-length":"5095","warc-identified-content-language":"fra,eng","warc-record-id":"<urn:uuid:7c1c010a-61ca-4383-92ba-008390a56fc9>"},"metadata":{"identification":{"label":"fr","prob":0.9586384},"annotation":["short_sentences","header","footer"],"sentence_identifications":[{"label": "fr", "prob": 0.9}]}}
{"content":"this is the main content","warc_headers":{"warc-type":"conversion","warc-date":"2021-09-16T11:37:01Z","warc-refers-to":"<urn:uuid:3cc5dbf1-6932-44e3-a5f9-87bddb242ed1>","warc-block-digest":"sha1:AAN5C7C7I2JOXM5ZYB5YNFPRC5N6GJES","content-type":"text/plain","warc-target-uri":"http://accueil-enfants-d-un-meme-pere.be/","content-length":"5095","warc-identified-content-language":"fra,eng","warc-record-id":"<urn:uuid:7c1c010a-61ca-4383-92ba-008390a56fc9>"},"metadata":{"identification":{"label":"fr","prob":0.9586384},"annotation":["short_sentences","header","footer"],"sentence_identifications":[{"label": "fr", "prob": 0.9}]}}"#
}

#[test]
fn test_read_simple() {
    let content = get_samples();
    let mut r = DocReader::new(content.as_bytes().to_vec());
    for _ in 0..5 {
        assert!(r.next().is_some());
    }
    assert!(r.next().is_none());
}

#[test]
fn test_compressed_data() {
    let content = get_samples();

    // read the uncompressed data
    let mut r = DocReader::new(content.as_bytes().to_vec());
    let mut records: Vec<Vec<u8>> = Vec::new();
    while let Some(line) = r.next() {
        records.push(line);
    }

    // create compressed data
    let mut compressed_content = vec![];
    {
        let mut enc =
            flate2::write::GzEncoder::new(&mut compressed_content, flate2::Compression::fast());
        enc.write_all(content.as_bytes()).unwrap();
        enc.finish();
    }

    let mut r = DocReader::from_gzip(&compressed_content).unwrap();
    let mut records_from_compressed: Vec<Vec<u8>> = Vec::new();
    while let Some(line) = r.next() {
        records_from_compressed.push(line);
    }

    assert_eq!(records, records_from_compressed);
}

#[test]
fn from_gzip_rejects_garbage() {
    let r = DocReader::from_gzip(b"this is not gzip data at all");
    assert!(matches!(r, Err(Error::Io(IoKind::Other))));
}

/// A 63-record corpus split over three parts under the probed pattern.
fn split_directory(prefix: &str) -> (Directory, Vec<Vec<u8>>) {
    let mut records: Vec<Vec<u8>> = Vec::new();
    for i in 0..63 {
        records.push(format!("record number {i}\n").into_bytes());
    }
    let mut dir = Directory::new();
    let cuts = [(0, 20), (20, 41), (41, 63)];
    for (idx, (lo, hi)) in cuts.iter().enumerate() {
        let mut data = Vec::new();
        for r in &records[*lo..*hi] {
            data.extend_from_slice(r);
        }
        dir.insert(PartFile { name: format!("{prefix}{}.jsonl", idx + 1), data })
            .unwrap();
    }
    (dir, records)
}

#[test]
fn test_split() {
    let (dir, _) = split_directory("data_part_");
    let mut cr = SplitFileIter::new(dir, "data_part_", "", ".jsonl", 1);
    let nb_docs = cr.read_all().unwrap().len();
    assert_eq!(nb_docs, 63);
}

#[test]
fn test_split_validity() {
    let (dir, records) = split_directory("data_part_");

    let mut full = Vec::new();
    for r in &records {
        full.extend_from_slice(r);
    }
    let mut cr_full = DocReader::new(full);
    let mut docs_from_full: Vec<Vec<u8>> = Vec::new();
    while let Some(line) = cr_full.next() {
        docs_from_full.push(line);
    }

    let mut cr_split = SplitFileIter::new(dir, "data_part_", "", ".jsonl", 1);
    let docs_from_split = cr_split.read_all().unwrap();

    assert!(docs_from_full.len() != 0);
    assert_eq!(docs_from_full.len(), docs_from_split.len());
    assert_eq!(docs_from_full, docs_from_split);
}

#[test]
// The iterator pull interface yields the same records one by one.
fn split_next_pulls_in_order() {
    let (dir, records) = split_directory("data_part_");
    let mut it = SplitFileIter::new(dir, "data_part_", "", ".jsonl", 1);
    let mut seen: Vec<Vec<u8>> = Vec::new();
    loop {
        match it.next() {
            None => break,
            Some(Ok(line)) => seen.push(line),
            Some(Err(e)) => panic!("unexpected failure: {e:?}"),
        }
    }
    assert_eq!(seen, records);
}

#[test]
// A missing first part is a fatal not-found failure, not a normal end.
fn split_missing_first_part_fails() {
    let (dir, _) = split_directory("data_part_");
    let mut it = SplitFileIter::new(dir, "other_", "", ".jsonl", 1);
    assert_eq!(it.read_all(), Err(Error::Io(IoKind::NotFound)));
}

#[test]
// Parts after a gap are not read: the first absent counter ends the
// sequence.
fn split_stops_at_gap() {
    let mut dir = Directory::new();
    dir.insert(PartFile { name: "d1.jsonl".to_string(), data: b"a\n".to_vec() }).unwrap();
    dir.insert(PartFile { name: "d2.jsonl".to_string(), data: b"b\n".to_vec() }).unwrap();
    dir.insert(PartFile { name: "d4.jsonl".to_string(), data: b"z\n".to_vec() }).unwrap();
    let mut it = SplitFileIter::new(dir, "d", "", ".jsonl", 1);
    let records = it.read_all().unwrap();
    assert_eq!(records, vec![b"a\n".to_vec(), b"b\n".to_vec()]);
}

#[test]
fn split_rotate_file_reports_missing() {
    let mut dir = Directory::new();
    dir.insert(PartFile { name: "d1.jsonl".to_string(), data: b"a\n".to_vec() }).unwrap();
    let mut it = SplitFileIter::new(dir, "d", "", ".jsonl", 1);
    assert!(it.rotate_file().is_ok());
    assert_eq!(it.rotate_file(), Err(Error::Io(IoKind::NotFound)));
}

#[test]
fn directory_refuses_duplicate_names() {
    let mut dir = Directory::new();
    dir.insert(PartFile { name: "p1.jsonl".to_string(), data: b"a\n".to_vec() }).unwrap();
    let r = dir.insert(PartFile { name: "p1.jsonl".to_string(), data: b"b\n".to_vec() });
    assert_eq!(r, Err(Error::AlreadyExists));
}

#[test]
// Round trip: whatever the budget cuts apart, the split reader puts back
// together.
fn write_then_split_read_round_trip() {
    let mut records: Vec<Vec<u8>> = Vec::new();
    for i in 0..37 {
        records.push(format!("the quick brown fox {i}\n").into_bytes());
    }
    let mut w = NewWriter::new("corpus".to_string(), None, Some(64));
    for r in &records {
        let _ = w.write(r);
    }
    let parts = w.finish();
    assert!(parts.len() > 1);

    let mut dir = Directory::new();
    for p in parts {
        dir.insert(p).unwrap();
    }
    let mut it = SplitFileIter::new(dir, "corpus_part_", "", ".jsonl", 1);
    let back = it.read_all().unwrap();
    assert_eq!(back, records);
}

#[test]
// Round trip without a budget: the single plain-named part holds every
// record in order.
fn write_unbounded_read_round_trip() {
    let mut records: Vec<Vec<u8>> = Vec::new();
    for i in 0..11 {
        records.push(format!("line {i}\n").into_bytes());
    }
    let mut w = NewWriter::new("corpus".to_string(), None, None);
    for r in &records {
        let _ = w.write(r);
    }
    let parts = w.finish();
    assert_eq!(parts.len(), 1);
    assert_eq!(parts[0].name, "corpus.jsonl");

    let mut rd = DocReader::new(parts.into_iter().next().unwrap().data);
    let mut back: Vec<Vec<u8>> = Vec::new();
    while let Some(line) = rd.next() {
        back.push(line);
    }
    assert_eq!(back, records);
}

#[test]
fn test_hehe() {
    let (_, records) = split_directory("data_part_");
    let mut full = Vec::new();
    for r in &records {
        full.extend_from_slice(r);
    }
    let mut cr = DocReader::new(full);
    let mut docs: Vec<Vec<u8>> = Vec::new();
    while let Some(line) = cr.next() {
        docs.push(line);
    }

    // ensure correct length.
    let nb_docs = docs.len();
    assert_eq!(nb_docs, 63);
}
