//! Document writers over the rotating part writer.
//!
//! Each takes serialized documents, frames them one per line, and hands the
//! bytes to a [`NewWriter`](crate::new_writer::NewWriter) configured with a
//! language-tag file stem, an optional size limit and an optional codec.
//! `DocWriter` and `WriterDoc` are the two revisions of the same writer the
//! library has always shipped; they behave identically.

use vstd::prelude::*;

use crate::chunking::rotate_step;
use crate::error::Error;
use crate::lines::{records_joined, NEWLINE};
use crate::new_writer::{Comp, NewWriter};

verus! {

/// Frames `pieces` one per line into a single buffer.
fn join_records(pieces: &Vec<Vec<u8>>) -> (r: Vec<u8>)
    ensures
        r@ == records_joined(pieces.deep_view()),
{
    let mut buf: Vec<u8> = Vec::new();
    let mut i: usize = 0;
    while i < pieces.len()
        invariant
            i <= pieces@.len(),
            buf@ == records_joined(pieces.deep_view().take(i as int)),
        decreases pieces@.len() - i,
    {
        proof {
            assert(pieces.deep_view().take(i as int).push(pieces@[i as int].deep_view())
                =~= pieces.deep_view().take(i + 1));
            pieces.deep_view().take(i as int).lemma_flat_map_push(
                |d: Seq<u8>| d + seq![NEWLINE],
                pieces.deep_view()[i as int],
            );
        }
        crate::lines::push_bytes(&mut buf, pieces[i].as_slice());
        buf.push(NEWLINE);
        proof {
            assert(pieces@[i as int].deep_view() =~~= pieces@[i as int]@);
            assert(buf@ =~= records_joined(pieces.deep_view().take(i + 1)));
        }
        i += 1;
    }
    proof {
        assert(pieces.deep_view().take(pieces@.len() as int) =~= pieces.deep_view());
    }
    buf
}

/// Writes documents of one language into size-bounded, rotated part files;
/// the file stem is the language tag.
pub struct DocWriter {
    pub handle: NewWriter,
}

impl DocWriter {
    /// Creates a writer whose parts carry `lang` as their file stem and stay
    /// under `size_limit` bytes where one is given.
    pub fn new(lang: String, size_limit: Option<u64>, comp: Option<Comp>) -> (r: Result<
        DocWriter,
        Error,
    >)
        requires
            size_limit is Some ==> size_limit.unwrap() <= usize::MAX,
        ensures
            r is Ok,
            r.unwrap().handle.wf(),
            r.unwrap().handle.stem() == lang@,
            r.unwrap().handle.compression() == comp,
            match size_limit {
                Option::Some(b) => r.unwrap().handle.budget() == Some(b as usize),
                Option::None => r.unwrap().handle.budget() == Option::<usize>::None,
            },
            r.unwrap().handle.closed_parts() == Seq::<Seq<u8>>::empty(),
            r.unwrap().handle.open_part() == Seq::<u8>::empty(),
    {
        let budget: Option<usize> = match size_limit {
            Option::Some(b) => Some(b as usize),
            Option::None => None,
        };
        Ok(DocWriter { handle: NewWriter::new(lang, comp, budget) })
    }

    /// Writes the provided serialized documents, one per line, as one
    /// buffer: the batch moves the rotation state by a single step, so a
    /// batch is never split across parts.
    pub fn write(&mut self, pieces: Vec<Vec<u8>>) -> (r: Result<(), Error>)
        requires
            old(self).handle.wf(),
        ensures
            r is Ok,
            final(self).handle.wf(),
            final(self).handle.stem() == old(self).handle.stem(),
            final(self).handle.compression() == old(self).handle.compression(),
            final(self).handle.budget() == old(self).handle.budget(),
            final(self).handle.closed_parts() == rotate_step(
                old(self).handle.closed_parts(),
                old(self).handle.open_part(),
                records_joined(pieces.deep_view()),
                old(self).handle.budget(),
            ).0,
            final(self).handle.open_part() == rotate_step(
                old(self).handle.closed_parts(),
                old(self).handle.open_part(),
                records_joined(pieces.deep_view()),
                old(self).handle.budget(),
            ).1,
    {
        let buf = join_records(&pieces);
        let _ = self.handle.write(buf.as_slice());
        Ok(())
    }

    /// Writes a single serialized document, without the delimiter, as the
    /// serializer would stream it.
    pub fn write_single(&mut self, piece: &Vec<u8>) -> (r: Result<(), Error>)
        requires
            old(self).handle.wf(),
        ensures
            r is Ok,
            final(self).handle.wf(),
            final(self).handle.stem() == old(self).handle.stem(),
            final(self).handle.compression() == old(self).handle.compression(),
            final(self).handle.budget() == old(self).handle.budget(),
            final(self).handle.closed_parts() == rotate_step(
                old(self).handle.closed_parts(),
                old(self).handle.open_part(),
                piece@,
                old(self).handle.budget(),
            ).0,
            final(self).handle.open_part() == rotate_step(
                old(self).handle.closed_parts(),
                old(self).handle.open_part(),
                piece@,
                old(self).handle.budget(),
            ).1,
    {
        let _ = self.handle.write(piece.as_slice());
        Ok(())
    }

    /// Flushes the underlying writer; a no-op in memory.
    pub fn flush(&mut self) -> (r: Result<(), Error>)
        ensures
            r is Ok,
            *final(self) == *old(self),
    {
        self.handle.flush();
        Ok(())
    }
}

/// The earlier revision of [`DocWriter`]; it writes the same bytes to the
/// same parts.
pub struct WriterDoc {
    pub handle: NewWriter,
}

impl WriterDoc {
    /// Creates a writer whose parts carry `lang` as their file stem and stay
    /// under `size_limit` bytes where one is given.
    pub fn new(lang: String, size_limit: Option<u64>, comp: Option<Comp>) -> (r: Result<
        WriterDoc,
        Error,
    >)
        requires
            size_limit is Some ==> size_limit.unwrap() <= usize::MAX,
        ensures
            r is Ok,
            r.unwrap().handle.wf(),
            r.unwrap().handle.stem() == lang@,
            r.unwrap().handle.compression() == comp,
            match size_limit {
                Option::Some(b) => r.unwrap().handle.budget() == Some(b as usize),
                Option::None => r.unwrap().handle.budget() == Option::<usize>::None,
            },
            r.unwrap().handle.closed_parts() == Seq::<Seq<u8>>::empty(),
            r.unwrap().handle.open_part() == Seq::<u8>::empty(),
    {
        let budget: Option<usize> = match size_limit {
            Option::Some(b) => Some(b as usize),
            Option::None => None,
        };
        Ok(WriterDoc { handle: NewWriter::new(lang, comp, budget) })
    }

    /// Writes the provided serialized documents, one per line, as one
    /// buffer.
    pub fn write(&mut self, pieces: Vec<Vec<u8>>) -> (r: Result<(), Error>)
        requires
            old(self).handle.wf(),
        ensures
            r is Ok,
            final(self).handle.wf(),
            final(self).handle.stem() == old(self).handle.stem(),
            final(self).handle.compression() == old(self).handle.compression(),
            final(self).handle.budget() == old(self).handle.budget(),
            final(self).handle.closed_parts() == rotate_step(
                old(self).handle.closed_parts(),
                old(self).handle.open_part(),
                records_joined(pieces.deep_view()),
                old(self).handle.budget(),
            ).0,
            final(self).handle.open_part() == rotate_step(
                old(self).handle.closed_parts(),
                old(self).handle.open_part(),
                records_joined(pieces.deep_view()),
                old(self).handle.budget(),
            ).1,
    {
        let buf = join_records(&pieces);
        let _ = self.handle.write(buf.as_slice());
        Ok(())
    }

    /// Writes a single serialized document, without the delimiter.
    pub fn write_single(&mut self, piece: &Vec<u8>) -> (r: Result<(), Error>)
        requires
            old(self).handle.wf(),
        ensures
            r is Ok,
            final(self).handle.wf(),
            final(self).handle.stem() == old(self).handle.stem(),
            final(self).handle.compression() == old(self).handle.compression(),
            final(self).handle.budget() == old(self).handle.budget(),
            final(self).handle.closed_parts() == rotate_step(
                old(self).handle.closed_parts(),
                old(self).handle.open_part(),
                piece@,
                old(self).handle.budget(),
            ).0,
            final(self).handle.open_part() == rotate_step(
                old(self).handle.closed_parts(),
                old(self).handle.open_part(),
                piece@,
                old(self).handle.budget(),
            ).1,
    {
        let _ = self.handle.write(piece.as_slice());
        Ok(())
    }

    /// Flushes the underlying writer; a no-op in memory.
    pub fn flush(&mut self) -> (r: Result<(), Error>)
        ensures
            r is Ok,
            *final(self) == *old(self),
    {
        self.handle.flush();
        Ok(())
    }
}

} // verus!
