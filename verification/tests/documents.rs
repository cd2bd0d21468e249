//! The document model, the document writers, and the column flattener.

use oscar_io::columns::{DocGroup, DocPart, SimpleDoc, SimpleDocsRow};
use oscar_io::docwriter::{DocWriter as V3DocWriter, WriterDoc};
use oscar_io::error::Error;
use oscar_io::reader::DocReader;
use oscar_io::types::{Document, Identification, Metadata, PROB_ONE_BITS};
use oscar_io::writer::DocWriter;

#[test]
fn test_simple_identification() {
    let id = Identification::new("en".to_string(), 1.0f32.to_bits());
    assert_eq!(id.label(), "en");
    assert_eq!(id.prob_bits(), 1.0f32.to_bits());
}

#[test]
fn identification_parse_accepts_tags() {
    let id = Identification::parse("fr".to_string(), PROB_ONE_BITS).unwrap();
    assert_eq!(id.label(), "fr");
    let id = Identification::parse("zh-cmn-Hans-CN".to_string(), PROB_ONE_BITS).unwrap();
    assert_eq!(id.label(), "zh-cmn-Hans-CN");
}

#[test]
fn identification_parse_rejects_malformed() {
    let r = Identification::parse("not a tag!!".to_string(), PROB_ONE_BITS);
    assert_eq!(r, Err(Error::MalformedRecord));
}

#[test]
fn metadata_default_is_english() {
    let m = Metadata::default();
    assert_eq!(m.identification().label(), "en");
    assert_eq!(m.identification().prob_bits(), 1.0f32.to_bits());
    assert!(m.annotation().is_none());
    assert_eq!(m.sentence_identifications().len(), 1);
}

#[test]
fn metadata_add_annotation_appends() {
    let mut m = Metadata::default();
    m.add_annotation("short_sentences".to_string());
    m.add_annotation("header".to_string());
    assert_eq!(
        m.annotation().as_ref().unwrap(),
        &vec!["short_sentences".to_string(), "header".to_string()]
    );
}

fn get_docs() -> Vec<Vec<u8>> {
    let mut docs = Vec::new();
    for i in 0..7 {
        docs.push(format!("{{\"content\":\"document {i}\"}}").into_bytes());
    }
    docs
}

#[test]
fn test_write_simple() {
    let writer = vec![];
    let mut dw = DocWriter::new(writer);

    let docs = get_docs();

    // write docs
    for doc in &docs {
        dw.write(doc).unwrap();
    }
    dw.flush().unwrap();

    // read from the buffer
    let mut reader = DocReader::new(dw.into_inner());
    let mut docs_from_reader: Vec<Vec<u8>> = Vec::new();
    while let Some(line) = reader.next() {
        // a record line is the serialized document plus the delimiter
        let mut line = line;
        assert_eq!(line.pop(), Some(b'\n'));
        docs_from_reader.push(line);
    }

    assert!(docs.len() != 0);
    assert!(docs_from_reader.len() != 0);
    assert_eq!(docs, docs_from_reader);
}

#[test]
fn test_write_multiple() {
    let writer = vec![];
    let mut dw = DocWriter::new(writer);

    let docs = get_docs();

    // write docs
    dw.write_multiple(&docs).unwrap();

    // read from the buffer
    let mut reader = DocReader::new(dw.into_inner());
    let mut docs_from_reader: Vec<Vec<u8>> = Vec::new();
    while let Some(line) = reader.next() {
        let mut line = line;
        assert_eq!(line.pop(), Some(b'\n'));
        docs_from_reader.push(line);
    }

    assert!(docs.len() != 0);
    assert!(docs_from_reader.len() != 0);
    assert_eq!(docs, docs_from_reader);
}

#[test]
fn docwriter_frames_batches() {
    let mut wr = V3DocWriter::new("fr".to_string(), Some(1_000_000), None).unwrap();
    let pieces = get_docs();
    wr.write(pieces.clone()).unwrap();
    wr.flush().unwrap();
    let parts = wr.handle.finish();
    assert_eq!(parts.len(), 1);
    assert_eq!(parts[0].name, "fr.jsonl");
    let mut expected = Vec::new();
    for p in &pieces {
        expected.extend_from_slice(p);
        expected.push(b'\n');
    }
    assert_eq!(parts[0].data, expected);
}

#[test]
fn writerdoc_writes_the_same_bytes() {
    let pieces = get_docs();
    let mut a = V3DocWriter::new("fr".to_string(), Some(10), None).unwrap();
    let mut b = WriterDoc::new("fr".to_string(), Some(10), None).unwrap();
    a.write(pieces.clone()).unwrap();
    b.write(pieces).unwrap();
    let pa = a.handle.finish();
    let pb = b.handle.finish();
    assert_eq!(pa.len(), pb.len());
    for (x, y) in pa.iter().zip(pb.iter()) {
        assert_eq!(x.name, y.name);
        assert_eq!(x.data, y.data);
    }
}

#[test]
fn write_single_adds_no_delimiter() {
    let mut wr = V3DocWriter::new("en".to_string(), None, None).unwrap();
    wr.write_single(&b"{\"content\":\"x\"}".to_vec()).unwrap();
    let parts = wr.handle.finish();
    assert_eq!(parts[0].data, b"{\"content\":\"x\"}".to_vec());
}

// check conversion from a document to its reduced form
#[test]
fn test_simpledoc() {
    let d = Document::new(b"foo\nbar\nbaz".to_vec(), Vec::new(), Metadata::default());

    let sd = SimpleDoc::from(&d);

    // convert back to native types for the comparison
    let content = sd
        .lines
        .iter()
        .map(|line| String::from_utf8(line.clone()).unwrap())
        .collect::<Vec<String>>()
        .join("\n");
    let (_, label, prob_bits) = sd.into_raw_parts();

    assert_eq!(content.as_bytes(), &d.content[..]);
    assert_eq!(&label, d.identification().label());
    assert_eq!(prob_bits, d.identification().prob_bits());
}

#[test]
fn from_vec() {
    let docs: Vec<Document> = ["hello", "second document", "third document\n :)"]
        .into_iter()
        .map(|content| Document::new(content.as_bytes().to_vec(), Vec::new(), Metadata::default()))
        .collect();

    let docgroup = DocGroup::new(&docs);
    assert_eq!(docgroup.contents.len(), 3);
    assert_eq!(docgroup.contents[2], b"third document\n :)".to_vec());
    assert_eq!(docgroup.ids.len(), 3);
    assert_eq!(docgroup.line_ids.len(), 3);
}

#[test]
fn foo() {
    let d = Document::new(b"hello!".to_vec(), Vec::new(), Metadata::default());
    let mut d_iter = d.iter_parquet();
    assert_eq!(d_iter.next(), Some(DocPart::Content(b"hello!".to_vec())));
    assert_eq!(d_iter.next(), Some(DocPart::Warc(Vec::new())));
    assert_eq!(d_iter.next(), Some(DocPart::Annotation(None)));
    assert_eq!(
        d_iter.next(),
        Some(DocPart::Id(Identification::new("en".to_string(), 1.0f32.to_bits())))
    );
    assert_eq!(
        d_iter.next(),
        Some(DocPart::LineIds(vec![Some(Identification::new(
            "en".to_string(),
            1.0f32.to_bits()
        ))]))
    );
    assert_eq!(d_iter.next(), None);
}

fn sample_docs() -> SimpleDocsRow {
    let mut docs = Vec::new();
    for i in 0..5 {
        docs.push(Document::new(
            format!("{i}foo\nbar\nbaz").into_bytes(),
            Vec::new(),
            Metadata::default(),
        ));
    }
    SimpleDocsRow::from_documents(&docs)
}

#[test]
// Every produced column has as many definition and repetition levels as
// values.
fn column_cardinality_invariant() {
    let docs = sample_docs();
    let lines = docs.lines();
    assert_eq!(lines.0.len(), lines.1.len());
    assert_eq!(lines.0.len(), lines.2.len());
    let labels = docs.labels();
    assert_eq!(labels.0.len(), labels.1.len());
    assert_eq!(labels.0.len(), labels.2.len());
    let probs = docs.probs();
    assert_eq!(probs.0.len(), probs.1.len());
    assert_eq!(probs.0.len(), probs.2.len());
}

#[test]
fn line_column_levels_exact() {
    let docs = vec![
        Document::new(b"a\nb".to_vec(), Vec::new(), Metadata::default()),
        Document::new(b"c".to_vec(), Vec::new(), Metadata::default()),
    ];
    let row = SimpleDocsRow::from_documents(&docs).lines();
    assert_eq!(row.0, vec![b"a".to_vec(), b"b".to_vec(), b"c".to_vec()]);
    assert_eq!(row.1, vec![1, 1, 1]);
    assert_eq!(row.2, vec![0, 1, 0]);
}

#[test]
// A document with no lines contributes nothing to the line column but one
// entry to each scalar column.
fn empty_document_policy() {
    let docs = vec![
        Document::new(Vec::new(), Vec::new(), Metadata::default()),
        Document::new(b"x".to_vec(), Vec::new(), Metadata::default()),
    ];
    let sdr = SimpleDocsRow::from_documents(&docs);
    let lines = sdr.lines();
    assert_eq!(lines.0, vec![b"x".to_vec()]);
    assert_eq!(lines.2, vec![0]);
    assert_eq!(sdr.labels().0.len(), 2);
    assert_eq!(sdr.probs().0.len(), 2);
}

#[test]
fn scalar_column_levels_exact() {
    let docs = sample_docs();
    let labels = docs.labels();
    assert_eq!(labels.0, vec!["en"; 5]);
    assert_eq!(labels.1, vec![0; 5]);
    assert_eq!(labels.2, vec![0; 5]);
    let probs = docs.probs();
    assert_eq!(probs.0, vec![1.0f32.to_bits(); 5]);
}

#[test]
// Carriage returns are stripped only directly before a newline, as a text
// line split does it.
fn line_split_handles_crlf() {
    let d = Document::new(b"a\r\nb\rc\n".to_vec(), Vec::new(), Metadata::default());
    let sd = SimpleDoc::from(&d);
    assert_eq!(sd.lines, vec![b"a".to_vec(), b"b\rc".to_vec()]);
}

#[test]
// Escaped newline sequences in the text are not line breaks: this content
// is a single line, matching its single per-line identification.
fn line_identification_count_checked() {
    let content = br"hel\nlo\r\n".to_vec();
    let doc = Document::new(content, Vec::new(), Metadata::default());
    assert_eq!(doc.content().len(), 11);
    assert!(doc.line_identifications_consistent());

    let two_lines = Document::new(b"a\nb\n".to_vec(), Vec::new(), Metadata::default());
    assert!(!two_lines.line_identifications_consistent());
}
