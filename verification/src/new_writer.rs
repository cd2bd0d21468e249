//! The size-bounded rotating writer.
//!
//! `NewWriter` accumulates a byte stream into parts, rotating to a new part
//! once the configured byte budget would be exceeded. Parts live in memory;
//! `finish` hands them out under their final on-disk names, with the
//! selected compression applied per part. Callers that persist to disk write
//! each finished part under its name.

use vstd::prelude::*;

use crate::chunking::rotate_step;
use crate::error::{Error, IoKind};
use crate::names::{dec_str, u64_to_string};

verus! {

use vstd::string::StringExecFns;

/// Compression choice for a writer: a small closed set of codecs.
#[derive(Debug, Clone, Copy, PartialEq, Eq, Structural)]
pub enum Comp {
    Zstd { level: i32 },
}

/// The filename token a codec contributes.
pub open spec fn spec_comp_extension(c: Comp) -> Seq<char> {
    "zstd"@
}

impl Comp {
    /// The filename token for this codec.
    pub fn extension(&self) -> (r: &str)
        ensures
            r@ == spec_comp_extension(*self),
    {
        match self {
            Comp::Zstd { level: _ } => "zstd",
        }
    }
}

/// The full extension of a part file: `jsonl`, or `jsonl.<codec token>`.
pub open spec fn spec_extension(comp: Option<Comp>) -> Seq<char> {
    match comp {
        Option::None => "jsonl"@,
        Option::Some(c) => "jsonl."@ + spec_comp_extension(c),
    }
}

/// `<stem>.<extension>`.
pub open spec fn spec_filename(stem: Seq<char>, comp: Option<Comp>) -> Seq<char> {
    stem + "."@ + spec_extension(comp)
}

/// `<stem>_part_<n>`.
pub open spec fn spec_part_stem(stem: Seq<char>, n: nat) -> Seq<char> {
    stem + "_part_"@ + dec_str(n)
}

/// The on-disk name of part `idx` (1-based) out of `total` parts: a single
/// part keeps the plain `<stem>.<ext>` name; with several parts, every part
/// carries its `_part_<idx>` suffix.
pub open spec fn spec_part_name(stem: Seq<char>, comp: Option<Comp>, idx: nat, total: nat) -> Seq<
    char,
> {
    if total <= 1 {
        spec_filename(stem, comp)
    } else {
        spec_filename(spec_part_stem(stem, idx), comp)
    }
}

/// Assembles a file name from a file stem (without extensions) and a
/// compression choice.
pub fn assemble_filepath(file_stem: &str, comp: &Option<Comp>) -> (r: String)
    ensures
        r@ == spec_filename(file_stem@, *comp),
{
    let mut s = String::from_str(file_stem);
    s.append(".");
    match comp {
        Option::None => {
            s.append("jsonl");
        },
        Option::Some(c) => {
            s.append("jsonl.");
            s.append(c.extension());
        },
    }
    proof {
        assert(s@ =~= spec_filename(file_stem@, *comp));
    }
    s
}

/// Assembles the file name of part `n`.
fn part_filepath(file_stem: &str, comp: &Option<Comp>, n: u64) -> (r: String)
    ensures
        r@ == spec_filename(spec_part_stem(file_stem@, n as nat), *comp),
{
    let mut stem = String::from_str(file_stem);
    stem.append("_part_");
    let num = u64_to_string(n);
    stem.append(num.as_str());
    proof {
        assert(stem@ =~= spec_part_stem(file_stem@, n as nat));
    }
    assemble_filepath(stem.as_str(), comp)
}

/// A name for what `zstd::stream::decode_all` returns on a byte sequence:
/// `Some` of the decoded bytes for a well-formed zstd frame, `None` where
/// decoding fails. Decoding is a function of the bytes alone.
pub uninterp spec fn zstd_decoded(frame: Seq<u8>) -> Option<Seq<u8>>;

/// Relies on zstd::stream::encode_all: the result is a zstd frame holding
/// exactly `data`, so decoding it yields `data` again. Encoding succeeds on
/// every input: libzstd clamps an out-of-range compression level instead of
/// erroring, and the destination is in memory, so no I/O failure exists.
#[verifier::external_body]
fn zstd_compress(data: &[u8], level: i32) -> (r: Result<Vec<u8>, Error>)
    ensures
        r is Ok,
        zstd_decoded(r.unwrap()@) == Some(data@),
{
    match zstd::stream::encode_all(data, level) {
        Ok(v) => Ok(v),
        Err(_) => Err(Error::Io(IoKind::Other)),
    }
}

/// One finished part: its on-disk file name and its raw file contents.
pub struct PartFile {
    pub name: String,
    pub data: Vec<u8>,
}

/// A writer that accepts a byte stream and cuts it into parts under a byte
/// budget. Rotation follows the budget rule of
/// [`rotate_step`](crate::chunking::rotate_step): a buffer is appended to the
/// open part while the part stays strictly under the budget, or when the open
/// part is still empty; otherwise the open part is closed and the buffer
/// starts the next part. Without a budget the writer never rotates.
///
/// Closed parts can be handed out early through
/// [`NewWriter::take_closed_parts`], so a caller persisting parts to disk
/// need not keep the whole stream in memory; [`NewWriter::finish`] emits
/// whatever remains.
pub struct NewWriter {
    file_stem: String,
    comp: Option<Comp>,
    size_b: usize,
    max_size_b: Option<usize>,
    closed: Vec<Vec<u8>>,
    current: Vec<u8>,
    taken: usize,
}

impl NewWriter {
    /// The uncompressed contents of the parts closed by rotation and not
    /// yet handed out.
    pub closed spec fn closed_parts(&self) -> Seq<Seq<u8>> {
        self.closed.deep_view()
    }

    /// How many closed parts were already handed out through
    /// [`NewWriter::take_closed_parts`].
    pub closed spec fn taken_parts(&self) -> nat {
        self.taken as nat
    }

    /// The uncompressed contents of the still-open part.
    pub closed spec fn open_part(&self) -> Seq<u8> {
        self.current@
    }

    /// All part contents, closed parts first, the open part last.
    pub open spec fn parts(&self) -> Seq<Seq<u8>> {
        self.closed_parts().push(self.open_part())
    }

    /// The configured file stem.
    pub closed spec fn stem(&self) -> Seq<char> {
        self.file_stem@
    }

    /// The configured compression choice.
    pub closed spec fn compression(&self) -> Option<Comp> {
        self.comp
    }

    /// The configured byte budget; `None` means unbounded.
    pub closed spec fn budget(&self) -> Option<usize> {
        self.max_size_b
    }

    /// The byte counter tracks the open part exactly whenever a budget is
    /// set, so budget accounting is exact across rotation boundaries.
    pub closed spec fn wf(&self) -> bool {
        self.max_size_b is Some ==> self.size_b == self.current@.len()
    }

    /// Creates a writer with one empty open part.
    pub fn new(file_stem: String, comp: Option<Comp>, max_size_b: Option<usize>) -> (r: NewWriter)
        ensures
            r.wf(),
            r.closed_parts() == Seq::<Seq<u8>>::empty(),
            r.open_part() == Seq::<u8>::empty(),
            r.stem() == file_stem@,
            r.compression() == comp,
            r.budget() == max_size_b,
            r.taken_parts() == 0,
    {
        let r = NewWriter {
            file_stem,
            comp,
            size_b: 0,
            max_size_b,
            closed: Vec::new(),
            current: Vec::new(),
            taken: 0,
        };
        proof {
            assert(r.closed_parts() =~= Seq::<Seq<u8>>::empty());
        }
        r
    }

    /// The name the open part would carry if the writer stopped now: the
    /// plain stem before any rotation, `_part_<n>` afterwards.
    pub fn current_filepath(&self) -> (r: String)
        requires
            self.taken_parts() + self.closed_parts().len() + 1 < usize::MAX,
        ensures
            r@ == spec_part_name(
                self.stem(),
                self.compression(),
                self.taken_parts() + self.closed_parts().len() + 1,
                self.taken_parts() + self.closed_parts().len() + 1,
            ),
    {
        if self.taken == 0 && self.closed.len() == 0 {
            assemble_filepath(self.file_stem.as_str(), &self.comp)
        } else {
            part_filepath(
                self.file_stem.as_str(),
                &self.comp,
                (self.taken as u64) + (self.closed.len() as u64) + 1,
            )
        }
    }

    /// The name of the part a rotation would open next. Does not change
    /// state.
    pub fn next_filepath(&self) -> (r: String)
        requires
            self.taken_parts() + self.closed_parts().len() + 2 < usize::MAX,
        ensures
            r@ == spec_filename(
                spec_part_stem(self.stem(), self.taken_parts() + self.closed_parts().len() + 2),
                self.compression(),
            ),
    {
        part_filepath(
            self.file_stem.as_str(),
            &self.comp,
            (self.taken as u64) + (self.closed.len() as u64) + 2,
        )
    }

    /// Closes the open part and opens a fresh empty one.
    fn rotate_file(&mut self)
        ensures
            final(self).closed_parts() == old(self).closed_parts().push(old(self).open_part()),
            final(self).open_part() == Seq::<u8>::empty(),
            final(self).size_b == 0,
            final(self).wf(),
            final(self).file_stem == old(self).file_stem,
            final(self).comp == old(self).comp,
            final(self).max_size_b == old(self).max_size_b,
            final(self).taken == old(self).taken,
    {
        let mut done: Vec<u8> = Vec::new();
        core::mem::swap(&mut done, &mut self.current);
        self.closed.push(done);
        self.size_b = 0;
        proof {
            assert(self.closed_parts() =~~= old(self).closed_parts().push(old(self).open_part()));
        }
    }

    /// Writes one buffer, rotating first if the budget requires it; returns
    /// the number of bytes written. The parts evolve by exactly one
    /// [`rotate_step`](crate::chunking::rotate_step) of the budget rule, so a
    /// buffer is never split across parts.
    pub fn write(&mut self, buf: &[u8]) -> (r: usize)
        requires
            old(self).wf(),
        ensures
            final(self).wf(),
            r == buf@.len(),
            final(self).closed_parts() == rotate_step(
                old(self).closed_parts(),
                old(self).open_part(),
                buf@,
                old(self).budget(),
            ).0,
            final(self).open_part() == rotate_step(
                old(self).closed_parts(),
                old(self).open_part(),
                buf@,
                old(self).budget(),
            ).1,
            final(self).stem() == old(self).stem(),
            final(self).compression() == old(self).compression(),
            final(self).budget() == old(self).budget(),
            final(self).taken_parts() == old(self).taken_parts(),
    {
        let len = buf.len();
        match self.max_size_b {
            Option::Some(b) => {
                let fits = self.size_b < b && len < b - self.size_b;
                if fits || self.size_b == 0 {
                    crate::lines::push_bytes(&mut self.current, buf);
                    self.size_b = self.size_b + len;
                } else {
                    self.rotate_file();
                    crate::lines::push_bytes(&mut self.current, buf);
                    self.size_b = len;
                }
            },
            Option::None => {
                crate::lines::push_bytes(&mut self.current, buf);
            },
        }
        len
    }

    /// Flushing is a no-op for an in-memory writer; parts are final only
    /// through [`NewWriter::finish`].
    pub fn flush(&mut self)
        ensures
            *final(self) == *old(self),
    {
    }

    /// Hands out the parts closed by rotation so far, under their final
    /// names, and forgets them; the open part stays. A closed part only
    /// exists after a rotation, so it always carries its `_part_<n>` suffix.
    /// Callers persisting parts to disk call this as they go, then
    /// [`NewWriter::finish`] for what remains.
    pub fn take_closed_parts(&mut self) -> (r: Vec<PartFile>)
        requires
            old(self).wf(),
            old(self).taken_parts() + old(self).closed_parts().len() + 1 < usize::MAX,
        ensures
            final(self).wf(),
            final(self).closed_parts() == Seq::<Seq<u8>>::empty(),
            final(self).open_part() == old(self).open_part(),
            final(self).stem() == old(self).stem(),
            final(self).compression() == old(self).compression(),
            final(self).budget() == old(self).budget(),
            final(self).taken_parts() == old(self).taken_parts() + old(self).closed_parts().len(),
            r@.len() == old(self).closed_parts().len(),
            forall|i: int|
                0 <= i < r@.len() ==> (#[trigger] r@[i].name)@ == spec_filename(
                    spec_part_stem(old(self).stem(), (old(self).taken_parts() + i + 1) as nat),
                    old(self).compression(),
                ),
            forall|i: int|
                0 <= i < r@.len() ==> match old(self).compression() {
                    Option::None => (#[trigger] r@[i].data)@ == old(self).closed_parts()[i],
                    Option::Some(_) => zstd_decoded(r@[i].data@) == Some(
                        old(self).closed_parts()[i],
                    ),
                },
    {
        let mut closed: Vec<Vec<u8>> = Vec::new();
        core::mem::swap(&mut closed, &mut self.closed);
        let base = self.taken;
        let total = closed.len();
        let mut out: Vec<PartFile> = Vec::new();
        let mut i: usize = 0;
        while i < total
            invariant
                self.stem() == old(self).stem(),
                self.compression() == old(self).compression(),
                closed.deep_view() == old(self).closed_parts(),
                base == old(self).taken_parts(),
                total == closed@.len(),
                base + total + 1 < usize::MAX,
                i <= total,
                out@.len() == i,
                forall|j: int|
                    0 <= j < i as int ==> (#[trigger] out@[j].name)@ == spec_filename(
                        spec_part_stem(self.stem(), (base + j + 1) as nat),
                        self.compression(),
                    ),
                forall|j: int|
                    0 <= j < i as int ==> match self.compression() {
                        Option::None => (#[trigger] out@[j].data)@ == closed.deep_view()[j],
                        Option::Some(_) => zstd_decoded(out@[j].data@) == Some(
                            closed.deep_view()[j],
                        ),
                    },
            decreases total - i,
        {
            let name = part_filepath(
                self.file_stem.as_str(),
                &self.comp,
                (base as u64) + (i as u64) + 1,
            );
            let data = encode_part(&closed[i], &self.comp);
            out.push(PartFile { name, data });
            i += 1;
        }
        self.taken = base + total;
        out
    }

    /// Closes the writer and returns every part not yet handed out, under
    /// its final name, in order. With a codec selected, each part's contents
    /// are encoded as one frame per part; without one they are returned as
    /// written. Naming follows rotation: a never-rotated writer yields the
    /// single plain `<stem>.<ext>` file, otherwise every part carries
    /// `_part_<n>`.
    pub fn finish(self) -> (r: Vec<PartFile>)
        requires
            self.taken_parts() + self.closed_parts().len() + 1 < usize::MAX,
        ensures
            r@.len() == self.parts().len(),
            forall|i: int|
                0 <= i < r@.len() ==> (#[trigger] r@[i].name)@ == spec_part_name(
                    self.stem(),
                    self.compression(),
                    (self.taken_parts() + i + 1) as nat,
                    self.taken_parts() + self.parts().len(),
                ),
            forall|i: int|
                0 <= i < r@.len() ==> match self.compression() {
                    Option::None => (#[trigger] r@[i].data)@ == self.parts()[i],
                    Option::Some(_) => zstd_decoded(r@[i].data@) == Some(self.parts()[i]),
                },
    {
        let NewWriter { file_stem, comp, size_b: _, max_size_b: _, closed, current, taken } = self;
        proof {
            assert(self.compression() == comp);
            assert(self.stem() == file_stem@);
            assert(self.closed_parts() == closed.deep_view());
            assert(self.open_part() == current@);
            assert(self.taken_parts() == taken as nat);
        }
        let multi = taken > 0 || closed.len() > 0;
        let mut out: Vec<PartFile> = Vec::new();
        let total = closed.len();
        let mut i: usize = 0;
        while i < total
            invariant
                comp == self.compression(),
                file_stem@ == self.stem(),
                closed.deep_view() == self.closed_parts(),
                current@ == self.open_part(),
                taken as nat == self.taken_parts(),
                total == closed@.len(),
                taken + total + 1 < usize::MAX,
                multi == (taken > 0 || total > 0),
                i <= total,
                out@.len() == i,
                forall|j: int|
                    0 <= j < i as int ==> (#[trigger] out@[j].name)@ == spec_part_name(
                        file_stem@,
                        comp,
                        (taken + j + 1) as nat,
                        (taken + total + 1) as nat,
                    ),
                forall|j: int|
                    0 <= j < i as int ==> match comp {
                        Option::None => (#[trigger] out@[j].data)@ == closed.deep_view()[j],
                        Option::Some(_) => zstd_decoded(out@[j].data@) == Some(
                            closed.deep_view()[j],
                        ),
                    },
            decreases total - i,
        {
            let name = part_filepath(
                file_stem.as_str(),
                &comp,
                (taken as u64) + (i as u64) + 1,
            );
            let data = encode_part(&closed[i], &comp);
            out.push(PartFile { name, data });
            i += 1;
        }
        let name = if multi {
            part_filepath(file_stem.as_str(), &comp, (taken as u64) + (total as u64) + 1)
        } else {
            assemble_filepath(file_stem.as_str(), &comp)
        };
        let data = encode_part(&current, &comp);
        out.push(PartFile { name, data });
        proof {
            let parts = closed.deep_view().push(current@);
            assert(out@.len() == parts.len());
            assert(forall|j: int| 0 <= j < total as int ==> parts[j] == closed.deep_view()[j]);
            assert(parts[total as int] == current@);
        }
        out
    }
}

/// Encodes one finished part's contents under the selected codec; the
/// identity for no codec at all.
fn encode_part(data: &Vec<u8>, comp: &Option<Comp>) -> (r: Vec<u8>)
    ensures
        match *comp {
            Option::None => r@ == data@,
            Option::Some(_) => zstd_decoded(r@) == Some(data@),
        },
{
    match comp {
        Option::None => {
            let copy = crate::lines::copy_byte_range(data.as_slice(), 0, data.len());
            proof {
                assert(copy@ =~= data@);
            }
            copy
        },
        Option::Some(Comp::Zstd { level }) => zstd_compress(data.as_slice(), *level).unwrap(),
    }
}

} // verus!
