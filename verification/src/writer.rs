//! The plain document writer: serialized documents, one per line, into a
//! byte sink. Serialization itself is the opaque boundary around the
//! library; this writer owns the framing, so embedded newlines can only
//! come from the serialized form, never from the framing.

use vstd::prelude::*;

use crate::error::Error;
use crate::lines::{records_joined, NEWLINE};

verus! {

/// Writes serialized documents, newline-delimited, into an in-memory sink.
pub struct DocWriter {
    w: Vec<u8>,
}

impl DocWriter {
    /// All bytes written so far.
    pub closed spec fn written(&self) -> Seq<u8> {
        self.w@
    }

    /// Wraps a byte sink (usually empty) to write documents into.
    pub fn new(writer: Vec<u8>) -> (r: DocWriter)
        ensures
            r.written() == writer@,
    {
        DocWriter { w: writer }
    }

    /// Appends one serialized document and the record delimiter.
    pub fn write(&mut self, doc: &[u8]) -> (r: Result<(), Error>)
        ensures
            r is Ok,
            final(self).written() == old(self).written() + doc@ + seq![NEWLINE],
    {
        crate::lines::push_bytes(&mut self.w, doc);
        self.w.push(NEWLINE);
        proof {
            assert(self.written() =~= old(self).written() + doc@ + seq![NEWLINE]);
        }
        Ok(())
    }

    /// Appends each serialized document with its delimiter, in order.
    pub fn write_multiple(&mut self, docs: &Vec<Vec<u8>>) -> (r: Result<(), Error>)
        ensures
            r is Ok,
            final(self).written() == old(self).written() + records_joined(docs.deep_view()),
    {
        let mut i: usize = 0;
        while i < docs.len()
            invariant
                i <= docs@.len(),
                self.written() == old(self).written() + records_joined(docs.deep_view().take(
                    i as int,
                )),
            decreases docs@.len() - i,
        {
            proof {
                assert(docs.deep_view().take(i as int).push(docs@[i as int].deep_view())
                    =~= docs.deep_view().take(i + 1));
                docs.deep_view().take(i as int).lemma_flat_map_push(
                    |d: Seq<u8>| d + seq![NEWLINE],
                    docs.deep_view()[i as int],
                );
            }
            let _ = self.write(docs[i].as_slice());
            proof {
                assert(docs@[i as int].deep_view() =~~= docs@[i as int]@);
                assert(self.written() =~= old(self).written() + records_joined(
                    docs.deep_view().take(i + 1),
                ));
            }
            i += 1;
        }
        proof {
            assert(docs.deep_view().take(docs@.len() as int) =~= docs.deep_view());
        }
        self.flush()
    }

    /// Flushing is a no-op for an in-memory sink.
    pub fn flush(&mut self) -> (r: Result<(), Error>)
        ensures
            r is Ok,
            *final(self) == *old(self),
    {
        Ok(())
    }

    /// Hands the sink back, with everything written to it.
    pub fn into_inner(self) -> (r: Vec<u8>)
        ensures
            r@ == self.written(),
    {
        self.w
    }
}

} // verus!
