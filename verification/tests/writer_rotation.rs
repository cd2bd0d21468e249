//! Rotation behavior of the size-bounded writer.

use oscar_io::new_writer::{Comp, NewWriter};

#[test]
fn test_unbound_uncompressed() {
    let stem = "test".to_string();
    let mut w = NewWriter::new(stem, None, None);
    let data = vec!["test\n", "data\n", ":)\n"];

    for d in &data {
        let _ = w.write(d.as_bytes());
    }
    w.flush();

    assert_eq!(w.current_filepath(), "test.jsonl");
    let parts = w.finish();
    assert_eq!(parts.len(), 1);
    assert_eq!(parts[0].name, "test.jsonl");
    assert_eq!(parts[0].data, data.join("").as_bytes());
}

#[test]
// Each file is bound to 5 bytes of data, so the result is:
// 1: test\n
// 2: 1\n2\n
// 3: data\n
// 4: :)\n
fn test_bound_uncompressed() {
    let stem = "test".to_string();
    let bound = 5;
    let mut w = NewWriter::new(stem, None, Some(bound));

    let data = vec!["test\n", "1\n", "2\n", "data\n", ":)\n"];
    let expected = vec!["test\n", "1\n2\n", "data\n", ":)\n"];

    for d in &data {
        let _ = w.write(d.as_bytes());
    }
    w.flush();

    let parts = w.finish();
    assert_eq!(parts.len(), 4);
    for idx in 1..=4 {
        let part = &parts[idx - 1];
        assert_eq!(part.name, format!("test_part_{idx}.jsonl"));
        assert_eq!(part.data, expected[idx - 1].as_bytes());
    }
}

#[test]
fn test_unbound_compressed() {
    let stem = "test".to_string();
    let mut w = NewWriter::new(stem, Some(Comp::Zstd { level: 0 }), None);
    let data = vec!["test\n", "data\n", ":)\n"];

    for d in &data {
        let _ = w.write(d.as_bytes());
    }
    w.flush();

    let parts = w.finish();
    assert_eq!(parts.len(), 1);
    assert_eq!(parts[0].name, "test.jsonl.zstd");

    let dec = zstd::decode_all(&parts[0].data[..]).unwrap();
    let res = String::from_utf8(dec).unwrap();
    assert_eq!(res, data.join(""));
}

#[test]
// Same bound as test_bound_uncompressed, with each part zstd-encoded.
fn test_bound_compressed() {
    let stem = "test".to_string();
    let bound = 5;
    let mut w = NewWriter::new(stem, Some(Comp::Zstd { level: 0 }), Some(bound));

    let data = vec!["test\n", "1\n", "2\n", "data\n", ":)\n"];
    let expected = vec!["test\n", "1\n2\n", "data\n", ":)\n"];

    for d in &data {
        let _ = w.write(d.as_bytes());
    }
    w.flush();

    let parts = w.finish();
    assert_eq!(parts.len(), 4);
    for idx in 1..=4 {
        let part = &parts[idx - 1];
        assert_eq!(part.name, format!("test_part_{idx}.jsonl.zstd"));
        let dec = zstd::decode_all(&part.data[..]).unwrap();
        let res = String::from_utf8(dec).unwrap();
        assert_eq!(res, expected[idx - 1]);
    }
}

#[test]
// A single record larger than the budget is written whole into part 1.
fn oversized_first_record() {
    let mut w = NewWriter::new("test".to_string(), None, Some(5));
    let _ = w.write(b"longrecord\n");
    let _ = w.write(b"a\n");
    let parts = w.finish();
    assert_eq!(parts.len(), 2);
    assert_eq!(parts[0].data, b"longrecord\n".to_vec());
    assert_eq!(parts[1].data, b"a\n".to_vec());
}

#[test]
// An oversized record alone never rotates, so the single part keeps the
// plain name.
fn oversized_only_record() {
    let mut w = NewWriter::new("test".to_string(), None, Some(5));
    let _ = w.write(b"longrecord\n");
    let parts = w.finish();
    assert_eq!(parts.len(), 1);
    assert_eq!(parts[0].name, "test.jsonl");
    assert_eq!(parts[0].data, b"longrecord\n".to_vec());
}

#[test]
// Budget comparison is strict: a record landing exactly on the budget
// boundary starts a new part on the next write, not this one.
fn exact_boundary_rotates_next() {
    let mut w = NewWriter::new("test".to_string(), None, Some(5));
    let _ = w.write(b"1234\n");
    let _ = w.write(b"x\n");
    let parts = w.finish();
    assert_eq!(parts.len(), 2);
    assert_eq!(parts[0].data, b"1234\n".to_vec());
    assert_eq!(parts[1].data, b"x\n".to_vec());
}

#[test]
fn naming_follows_rotation() {
    let mut w = NewWriter::new("corpus".to_string(), None, Some(3));
    assert_eq!(w.current_filepath(), "corpus.jsonl");
    assert_eq!(w.next_filepath(), "corpus_part_2.jsonl");
    let _ = w.write(b"aa\n");
    let _ = w.write(b"bb\n");
    assert_eq!(w.current_filepath(), "corpus_part_2.jsonl");
    assert_eq!(w.next_filepath(), "corpus_part_3.jsonl");
}

#[test]
fn codec_extension_token() {
    let c = Comp::Zstd { level: 3 };
    assert_eq!(c.extension(), "zstd");
}

#[test]
// Exactly two parts when the cumulative size first exceeds the budget at
// one record and never again: part 1 holds everything before it, part 2
// the rest.
fn two_parts_after_first_overflow() {
    let mut w = NewWriter::new("test".to_string(), None, Some(10));
    let _ = w.write(b"aaa\n");
    let _ = w.write(b"bbb\n");
    let _ = w.write(b"ccc\n");
    let parts = w.finish();
    assert_eq!(parts.len(), 2);
    assert_eq!(parts[0].data, b"aaa\nbbb\n".to_vec());
    assert_eq!(parts[1].data, b"ccc\n".to_vec());
}

#[test]
// Closed parts can be taken as rotation happens; numbering continues and
// the final parts line up with an all-at-once finish.
fn take_closed_parts_streams() {
    let data = vec!["test\n", "1\n", "2\n", "data\n", ":)\n"];
    let expected = vec!["test\n", "1\n2\n", "data\n", ":)\n"];

    let mut w = NewWriter::new("test".to_string(), None, Some(5));
    let mut parts = Vec::new();
    for d in &data {
        let _ = w.write(d.as_bytes());
        parts.append(&mut w.take_closed_parts());
    }
    let early = parts.len();
    assert!(early >= 1);
    parts.append(&mut w.finish());

    assert_eq!(parts.len(), 4);
    for idx in 1..=4 {
        let part = &parts[idx - 1];
        assert_eq!(part.name, format!("test_part_{idx}.jsonl"));
        assert_eq!(part.data, expected[idx - 1].as_bytes());
    }
}

#[test]
// Taking when nothing has been closed hands out nothing and changes
// nothing.
fn take_closed_parts_empty() {
    let mut w = NewWriter::new("test".to_string(), None, Some(100));
    let _ = w.write(b"abc\n");
    assert_eq!(w.take_closed_parts().len(), 0);
    let parts = w.finish();
    assert_eq!(parts.len(), 1);
    assert_eq!(parts[0].name, "test.jsonl");
    assert_eq!(parts[0].data, b"abc\n".to_vec());
}
