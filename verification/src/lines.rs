//! The byte-level line model.
//!
//! Records are self-delimited: one record per line, terminated by a newline
//! byte. These spec functions define how a byte stream decomposes into lines,
//! and the lemmas relate that decomposition to concatenation, which is what
//! the round-trip guarantees of the writer and the split reader rest on.

use vstd::prelude::*;

verus! {

/// The line delimiter.
pub const NEWLINE: u8 = 10;

/// A well-formed on-disk record: non-empty, terminated by exactly one
/// newline byte, with no newline anywhere before the end.
pub open spec fn is_record(r: Seq<u8>) -> bool {
    &&& r.len() >= 1
    &&& r.last() == NEWLINE
    &&& forall|i: int| 0 <= i < r.len() - 1 ==> r[i] != NEWLINE
}

/// The first line of `b`: everything up to and including the first newline
/// byte, or all of `b` if it holds none.
pub open spec fn next_line(b: Seq<u8>) -> Seq<u8>
    decreases b.len(),
{
    if b.len() == 0 {
        Seq::empty()
    } else if b.first() == NEWLINE {
        seq![b.first()]
    } else {
        seq![b.first()] + next_line(b.drop_first())
    }
}

/// `b` decomposed into lines, each keeping its terminating newline; a final
/// chunk without a newline is a line of its own.
pub open spec fn split_lines(b: Seq<u8>) -> Seq<Seq<u8>>
    decreases b.len(),
    via split_lines_decreases
{
    if b.len() == 0 {
        Seq::empty()
    } else {
        seq![next_line(b)] + split_lines(b.skip(next_line(b).len() as int))
    }
}

#[via_fn]
proof fn split_lines_decreases(b: Seq<u8>) {
    if b.len() != 0 {
        lemma_next_line_len(b);
    }
}

/// The first line of a non-empty stream is non-empty and no longer than the
/// stream.
pub proof fn lemma_next_line_len(b: Seq<u8>)
    requires
        b.len() > 0,
    ensures
        1 <= next_line(b).len() <= b.len(),
    decreases b.len(),
{
    reveal_with_fuel(next_line, 2);
    if b.first() != NEWLINE && b.drop_first().len() > 0 {
        lemma_next_line_len(b.drop_first());
    }
}

/// The first line is a prefix of the stream.
pub proof fn lemma_next_line_prefix(b: Seq<u8>)
    requires
        b.len() > 0,
    ensures
        next_line(b) == b.take(next_line(b).len() as int),
    decreases b.len(),
{
    lemma_next_line_len(b);
    if b.first() != NEWLINE && b.drop_first().len() > 0 {
        lemma_next_line_prefix(b.drop_first());
        lemma_next_line_len(b.drop_first());
        assert(next_line(b) =~= b.take(next_line(b).len() as int));
    } else {
        assert(next_line(b) =~= b.take(next_line(b).len() as int));
    }
}

/// If the first newline of `b` sits at index `k`, the first line is
/// `b.take(k + 1)`.
pub proof fn lemma_next_line_at(b: Seq<u8>, k: int)
    requires
        0 <= k < b.len(),
        b[k] == NEWLINE,
        forall|i: int| 0 <= i < k ==> b[i] != NEWLINE,
    ensures
        next_line(b) == b.take(k + 1),
    decreases b.len(),
{
    if k == 0 {
        assert(next_line(b) =~= b.take(1));
    } else {
        lemma_next_line_at(b.drop_first(), k - 1);
        assert(next_line(b) =~= b.take(k + 1));
    }
}

/// If `b` holds no newline at all, the whole of `b` is its first line.
pub proof fn lemma_next_line_whole(b: Seq<u8>)
    requires
        forall|i: int| 0 <= i < b.len() ==> b[i] != NEWLINE,
    ensures
        next_line(b) == b,
    decreases b.len(),
{
    if b.len() > 0 {
        lemma_next_line_whole(b.drop_first());
        assert(next_line(b) =~= b);
    } else {
        assert(next_line(b) =~= b);
    }
}

/// A record is exactly one line.
pub proof fn lemma_split_lines_record(r: Seq<u8>)
    requires
        is_record(r),
    ensures
        next_line(r) == r,
        split_lines(r) == seq![r],
{
    reveal_with_fuel(split_lines, 2);
    lemma_next_line_at(r, r.len() - 1);
    assert(next_line(r) =~= r);
    assert(r.skip(r.len() as int) =~= Seq::<u8>::empty());
    assert(split_lines(r) =~= seq![r]);
}

/// Scanning for the first line does not look past a newline: appending more
/// bytes after a newline-terminated prefix leaves the first line unchanged.
pub proof fn lemma_next_line_append(a: Seq<u8>, c: Seq<u8>)
    requires
        a.len() > 0,
        a.last() == NEWLINE,
    ensures
        next_line(a + c) == next_line(a),
    decreases a.len(),
{
    if a.first() == NEWLINE {
        assert((a + c).first() == NEWLINE);
        assert(next_line(a + c) =~= next_line(a));
    } else {
        assert(a.len() > 1);
        assert(a.drop_first().len() > 0 && a.drop_first().last() == NEWLINE);
        lemma_next_line_append(a.drop_first(), c);
        assert((a + c).drop_first() =~= a.drop_first() + c);
        assert(next_line(a + c) =~= next_line(a));
    }
}

/// Appending one record to a newline-terminated stream appends one line.
pub proof fn lemma_split_lines_push(a: Seq<u8>, r: Seq<u8>)
    requires
        a.len() == 0 || a.last() == NEWLINE,
        is_record(r),
    ensures
        split_lines(a + r) == split_lines(a).push(r),
    decreases a.len(),
{
    if a.len() == 0 {
        assert(a + r =~= r);
        lemma_split_lines_record(r);
        assert(split_lines(a + r) =~= split_lines(a).push(r));
    } else {
        lemma_next_line_append(a, r);
        let l = next_line(a);
        lemma_next_line_len(a);
        assert((a + r).skip(l.len() as int) =~= a.skip(l.len() as int) + r);
        lemma_next_line_prefix(a);
        if l.len() < a.len() {
            assert(a.skip(l.len() as int).last() == a.last());
        } else {
            assert(a.skip(l.len() as int).len() == 0);
        }
        lemma_split_lines_push(a.skip(l.len() as int), r);
        assert(split_lines(a + r) =~= split_lines(a).push(r));
    }
}

/// Flattening a sequence of records yields a stream that is empty or
/// newline-terminated, and splitting that stream into lines recovers exactly
/// the records. This is the heart of the round-trip guarantee.
pub proof fn lemma_split_lines_flatten(records: Seq<Seq<u8>>)
    requires
        forall|i: int| 0 <= i < records.len() ==> is_record(#[trigger] records[i]),
    ensures
        split_lines(records.flatten()) == records,
        records.flatten().len() == 0 || records.flatten().last() == NEWLINE,
    decreases records.len(),
{
    if records.len() == 0 {
        assert(records.flatten() =~= Seq::<u8>::empty());
        assert(split_lines(records.flatten()) =~= records);
    } else {
        let front = records.drop_last();
        lemma_split_lines_flatten(front);
        records.lemma_flatten_and_flatten_alt_are_equivalent();
        front.lemma_flatten_and_flatten_alt_are_equivalent();
        assert(records.flatten_alt() == front.flatten_alt() + records.last());
        assert(records.flatten() == front.flatten() + records.last());
        lemma_split_lines_push(front.flatten(), records.last());
        assert(split_lines(records.flatten()) =~= records);
        assert(records.last().len() > 0);
        assert(records.flatten().last() == records.last().last());
    }
}

/// The byte stream of a series of records, each followed by one newline
/// byte: how the document writers frame serialized documents.
pub open spec fn records_joined(docs: Seq<Seq<u8>>) -> Seq<u8> {
    docs.flat_map(|d: Seq<u8>| d + seq![NEWLINE])
}

/// Appends all of `src` to `dst`.
pub fn push_bytes(dst: &mut Vec<u8>, src: &[u8])
    ensures
        final(dst)@ == old(dst)@ + src@,
{
    let mut i: usize = 0;
    while i < src.len()
        invariant
            i <= src@.len(),
            dst@ == old(dst)@ + src@.take(i as int),
        decreases src@.len() - i,
    {
        dst.push(src[i]);
        i += 1;
        proof {
            assert(dst@ =~= old(dst)@ + src@.take(i as int));
        }
    }
    proof {
        assert(dst@ =~= old(dst)@ + src@);
    }
}

/// Copies the byte range `[from, to)` of `src` into a fresh vector.
pub fn copy_byte_range(src: &[u8], from: usize, to: usize) -> (r: Vec<u8>)
    requires
        from <= to <= src@.len(),
    ensures
        r@ == src@.subrange(from as int, to as int),
{
    let mut out: Vec<u8> = Vec::new();
    let mut i: usize = from;
    while i < to
        invariant
            from <= i <= to <= src@.len(),
            out@ == src@.subrange(from as int, i as int),
        decreases to - i,
    {
        out.push(src[i]);
        i += 1;
        proof {
            assert(out@ =~= src@.subrange(from as int, i as int));
        }
    }
    out
}

} // verus!
