//! Readers.
//!
//! `DocReader` yields the records of one part, line by line. `Directory` is
//! the set of named files the split reader probes, and `SplitFileIter`
//! chains consecutive part files back into the one logical record sequence
//! that the rotating writer cut apart.

use vstd::prelude::*;

use crate::error::{Error, IoKind};
use crate::lines::{next_line, split_lines, NEWLINE};
use crate::names::dec_str;
use crate::new_writer::PartFile;

verus! {

use vstd::string::StringExecFns;

/// A name for what flate2's gzip decoding returns on a byte sequence:
/// `Some` of the decoded bytes where they form well-formed gzip members,
/// `None` where decoding fails. Decoding is a function of the bytes alone.
pub uninterp spec fn gzip_decoded(data: Seq<u8>) -> Option<Seq<u8>>;

/// Relies on flate2::bufread::MultiGzDecoder: draining it decodes all gzip
/// members of `data`. Decoding an in-memory buffer fails exactly on
/// malformed input, so success coincides with the input being decodable.
#[verifier::external_body]
fn gzip_decompress(data: &[u8]) -> (r: Result<Vec<u8>, Error>)
    ensures
        r is Ok <==> gzip_decoded(data@) is Some,
        r is Ok ==> gzip_decoded(data@) == Some(r.unwrap()@),
{
    let mut dec = flate2::bufread::MultiGzDecoder::new(data);
    let mut out = Vec::new();
    match std::io::Read::read_to_end(&mut dec, &mut out) {
        Ok(_) => Ok(out),
        Err(_) => Err(Error::Io(IoKind::Other)),
    }
}

/// Reads the records of one part, line by line, from an in-memory buffer.
pub struct DocReader {
    data: Vec<u8>,
    pos: usize,
}

impl DocReader {
    /// The whole buffer this reader walks.
    pub closed spec fn contents(&self) -> Seq<u8> {
        self.data@
    }

    /// The bytes not yet yielded.
    pub closed spec fn remaining(&self) -> Seq<u8> {
        self.data@.skip(self.pos as int)
    }

    /// The read position never passes the end.
    pub closed spec fn wf(&self) -> bool {
        self.pos <= self.data@.len()
    }

    /// Creates a reader over a buffer of newline-delimited records.
    pub fn new(data: Vec<u8>) -> (r: DocReader)
        ensures
            r.wf(),
            r.contents() == data@,
            r.remaining() == data@,
    {
        let r = DocReader { data, pos: 0 };
        proof {
            assert(r.remaining() =~= r.contents());
        }
        r
    }

    /// Creates a reader over the gzip-decoded contents of `compressed`;
    /// succeeds exactly on decodable input.
    pub fn from_gzip(compressed: &[u8]) -> (r: Result<DocReader, Error>)
        ensures
            r is Ok <==> gzip_decoded(compressed@) is Some,
            r is Ok ==> {
                &&& r.unwrap().wf()
                &&& r.unwrap().remaining() == gzip_decoded(compressed@).unwrap()
            },
    {
        match gzip_decompress(compressed) {
            Ok(d) => Ok(DocReader::new(d)),
            Err(e) => Err(e),
        }
    }

    /// Yields the next line (with its newline byte, if it has one), or
    /// `None` at the end of the buffer.
    pub fn next(&mut self) -> (r: Option<Vec<u8>>)
        requires
            old(self).wf(),
        ensures
            final(self).wf(),
            final(self).contents() == old(self).contents(),
            match r {
                Option::None => {
                    &&& old(self).remaining().len() == 0
                    &&& final(self).remaining() == old(self).remaining()
                },
                Option::Some(line) => {
                    &&& old(self).remaining().len() > 0
                    &&& line@ == next_line(old(self).remaining())
                    &&& final(self).remaining() == old(self).remaining().skip(line@.len() as int)
                },
            },
    {
        if self.pos == self.data.len() {
            return None;
        }
        let ghost rem = self.remaining();
        let mut j = self.pos;
        while j < self.data.len() && self.data[j] != NEWLINE
            invariant
                self.pos <= j <= self.data@.len(),
                forall|t: int| self.pos <= t < j ==> self.data@[t] != NEWLINE,
            decreases self.data@.len() - j,
        {
            j += 1;
        }
        let end = if j < self.data.len() {
            j + 1
        } else {
            j
        };
        proof {
            assert(rem =~= self.data@.subrange(self.pos as int, self.data@.len() as int));
            if j < self.data@.len() {
                crate::lines::lemma_next_line_at(rem, j - self.pos);
            } else {
                crate::lines::lemma_next_line_whole(rem);
            }
            assert(next_line(rem) =~= self.data@.subrange(self.pos as int, end as int));
        }
        let line = crate::lines::copy_byte_range(self.data.as_slice(), self.pos, end);
        self.pos = end;
        proof {
            assert(self.remaining() =~= rem.skip(line@.len() as int));
        }
        Some(line)
    }
}

/// An in-memory directory: the named files a split reader probes. Names are
/// unique; inserting a name twice is refused, never overwritten.
pub struct Directory {
    files: Vec<PartFile>,
}

impl Directory {
    /// The files, in insertion order.
    pub closed spec fn files_view(&self) -> Seq<PartFile> {
        self.files@
    }

    /// How many files the directory holds.
    pub open spec fn file_count(&self) -> nat {
        self.files_view().len()
    }

    /// No two files share a name.
    pub open spec fn wf(&self) -> bool {
        forall|i: int, j: int|
            0 <= i < j < self.files_view().len() ==> (#[trigger] self.files_view()[i].name)@ != (
            #[trigger] self.files_view()[j].name)@
    }

    /// Whether a file of this name is present.
    pub open spec fn contains_name(&self, name: Seq<char>) -> bool {
        exists|i: int|
            0 <= i < self.files_view().len() && (#[trigger] self.files_view()[i].name)@ == name
    }

    /// The contents of the file of this name.
    pub open spec fn file_data(&self, name: Seq<char>) -> Seq<u8> {
        let i = choose|i: int|
            0 <= i < self.files_view().len() && (#[trigger] self.files_view()[i].name)@ == name;
        self.files_view()[i].data@
    }

    /// How many files the directory holds, as the probed model sees it.
    pub fn len(&self) -> (r: usize)
        ensures
            r == self.file_count(),
    {
        self.files.len()
    }

    /// An empty directory.
    pub fn new() -> (r: Directory)
        ensures
            r.wf(),
            r.files_view() == Seq::<PartFile>::empty(),
    {
        let r = Directory { files: Vec::new() };
        proof {
            assert(r.files_view() =~= Seq::<PartFile>::empty());
        }
        r
    }

    /// Looks a file up by name.
    pub fn lookup(&self, name: &String) -> (r: Option<&Vec<u8>>)
        requires
            self.wf(),
        ensures
            match r {
                Option::Some(d) => self.contains_name(name@) && d@ == self.file_data(name@),
                Option::None => !self.contains_name(name@),
            },
    {
        let mut i: usize = 0;
        while i < self.files.len()
            invariant
                self.wf(),
                i <= self.files_view().len(),
                forall|t: int| 0 <= t < i ==> (#[trigger] self.files_view()[t].name)@ != name@,
            decreases self.files_view().len() - i,
        {
            if self.files[i].name == *name {
                return Some(&self.files[i].data);
            }
            i += 1;
        }
        None
    }

    /// Adds a file under a fresh name; a name collision is refused with
    /// [`Error::AlreadyExists`] and changes nothing.
    pub fn insert(&mut self, file: PartFile) -> (r: Result<(), Error>)
        requires
            old(self).wf(),
        ensures
            final(self).wf(),
            match r {
                Result::Ok(()) => {
                    &&& !old(self).contains_name(file.name@)
                    &&& final(self).files_view() == old(self).files_view().push(file)
                },
                Result::Err(e) => {
                    &&& e == Error::AlreadyExists
                    &&& old(self).contains_name(file.name@)
                    &&& final(self).files_view() == old(self).files_view()
                },
            },
    {
        let dup = match self.lookup(&file.name) {
            Option::Some(_) => true,
            Option::None => false,
        };
        if dup {
            Err(Error::AlreadyExists)
        } else {
            self.files.push(file);
            proof {
                assert forall|i: int, j: int|
                    0 <= i < j < self.files_view().len() implies (
                #[trigger] self.files_view()[i].name)@ != (#[trigger] self.files_view()[j].name)@ by {
                    if j == self.files_view().len() - 1 {
                        assert(!old(self).contains_name(file.name@));
                        assert(old(self).files_view()[i].name@ != file.name@);
                    }
                }
            }
            Ok(())
        }
    }
}

/// The probed file name of part `k`: `<start><k><end><extension>`.
pub open spec fn spec_split_name(pre: Seq<char>, k: nat, suf: Seq<char>, ext: Seq<char>) -> Seq<
    char,
> {
    pre + dec_str(k) + suf + ext
}

/// Whether part `k` of the pattern is present in `dir`.
pub open spec fn part_present(
    dir: Directory,
    pre: Seq<char>,
    suf: Seq<char>,
    ext: Seq<char>,
    k: nat,
) -> bool {
    dir.contains_name(spec_split_name(pre, k, suf, ext))
}

/// The contents of part `k` of the pattern in `dir`.
pub open spec fn part_data(
    dir: Directory,
    pre: Seq<char>,
    suf: Seq<char>,
    ext: Seq<char>,
    k: nat,
) -> Seq<u8> {
    dir.file_data(spec_split_name(pre, k, suf, ext))
}

/// Parts `k, .., k + n - 1` are present and part `k + n` is absent.
pub open spec fn has_run_from(
    dir: Directory,
    pre: Seq<char>,
    suf: Seq<char>,
    ext: Seq<char>,
    k: nat,
    n: nat,
) -> bool {
    &&& forall|i: nat| i < n ==> #[trigger] part_present(dir, pre, suf, ext, (k + i) as nat)
    &&& !part_present(dir, pre, suf, ext, (k + n) as nat)
}

/// The records of parts `k, .., k + n - 1`, in order.
pub open spec fn run_records_from(
    dir: Directory,
    pre: Seq<char>,
    suf: Seq<char>,
    ext: Seq<char>,
    k: nat,
    n: nat,
) -> Seq<Seq<u8>>
    decreases n,
{
    if n == 0 {
        Seq::<Seq<u8>>::empty()
    } else {
        split_lines(part_data(dir, pre, suf, ext, k)) + run_records_from(
            dir,
            pre,
            suf,
            ext,
            (k + 1) as nat,
            (n - 1) as nat,
        )
    }
}

/// The length of the present run from counter `k`.
pub open spec fn run_len_from(
    dir: Directory,
    pre: Seq<char>,
    suf: Seq<char>,
    ext: Seq<char>,
    k: nat,
) -> nat {
    choose|n: nat| has_run_from(dir, pre, suf, ext, k, n)
}

/// Reads the documents of a split corpus: part files named
/// `<start><counter><end><extension>`, probed in ascending counter order,
/// each holding newline-delimited records. The concatenation across parts is
/// presented as one logical sequence; a missing part file is the normal end
/// once at least one part was opened, and a fatal error on the very first
/// probe.
pub struct SplitFileIter {
    dir: Directory,
    file_name_start: String,
    file_name_end: String,
    file_name_extension: String,
    counter_start: usize,
    counter: usize,
    current_file: Option<DocReader>,
}

impl SplitFileIter {
    /// The directory this reader probes.
    pub closed spec fn dir_spec(&self) -> Directory {
        self.dir
    }

    /// The name prefix before the counter.
    pub closed spec fn name_start(&self) -> Seq<char> {
        self.file_name_start@
    }

    /// The name piece between the counter and the extension.
    pub closed spec fn name_end(&self) -> Seq<char> {
        self.file_name_end@
    }

    /// The name extension.
    pub closed spec fn name_ext(&self) -> Seq<char> {
        self.file_name_extension@
    }

    /// The first counter value probed.
    pub closed spec fn start(&self) -> nat {
        self.counter_start as nat
    }

    /// The counter of the next part to probe.
    pub closed spec fn counter_spec(&self) -> nat {
        self.counter as nat
    }

    /// The currently open part reader, if any.
    pub closed spec fn current_spec(&self) -> Option<DocReader> {
        self.current_file
    }

    /// The file name of part `k`.
    #[verifier::inline]
    pub open spec fn probe_name(&self, k: nat) -> Seq<char> {
        spec_split_name(self.name_start(), k, self.name_end(), self.name_ext())
    }

    /// Whether part `k` is present in the directory.
    #[verifier::inline]
    pub open spec fn part_present(&self, k: nat) -> bool {
        part_present(self.dir_spec(), self.name_start(), self.name_end(), self.name_ext(), k)
    }

    /// The contents of part `k`.
    #[verifier::inline]
    pub open spec fn part_data(&self, k: nat) -> Seq<u8> {
        part_data(self.dir_spec(), self.name_start(), self.name_end(), self.name_ext(), k)
    }

    /// Parts `k, .., k + n - 1` are present and part `k + n` is absent.
    #[verifier::inline]
    pub open spec fn has_run_from(&self, k: nat, n: nat) -> bool {
        has_run_from(self.dir_spec(), self.name_start(), self.name_end(), self.name_ext(), k, n)
    }

    /// Parts `start(), ..` up to the first absent one.
    #[verifier::inline]
    pub open spec fn has_run(&self, n: nat) -> bool {
        self.has_run_from(self.start(), n)
    }

    /// The records of parts `k, .., k + n - 1`, in order.
    #[verifier::inline]
    pub open spec fn run_records_from(&self, k: nat, n: nat) -> Seq<Seq<u8>> {
        run_records_from(self.dir_spec(), self.name_start(), self.name_end(), self.name_ext(), k, n)
    }

    /// The records of the first `n` parts from the configured start.
    #[verifier::inline]
    pub open spec fn run_records(&self, n: nat) -> Seq<Seq<u8>> {
        self.run_records_from(self.start(), n)
    }

    /// The length of the present run from counter `k`.
    #[verifier::inline]
    pub open spec fn run_len_from(&self, k: nat) -> nat {
        run_len_from(self.dir_spec(), self.name_start(), self.name_end(), self.name_ext(), k)
    }

    /// Everything this reader has still to yield: the rest of the open part,
    /// then the records of every further consecutive part present.
    pub open spec fn remaining_records(&self) -> Seq<Seq<u8>> {
        let tail = self.run_records_from(
            self.counter_spec(),
            self.run_len_from(self.counter_spec()),
        );
        match self.current_spec() {
            Option::Some(rd) => split_lines(rd.remaining()) + tail,
            Option::None => tail,
        }
    }

    /// Well-formed reader state: unique directory names, a counter that
    /// never went backwards, every part already walked was present, and a
    /// well-formed open reader if any.
    pub open spec fn wf(&self) -> bool {
        &&& self.dir_spec().wf()
        &&& self.start() <= self.counter_spec()
        &&& forall|i: nat| self.start() <= i < self.counter_spec() ==> #[trigger] self.part_present(i)
        &&& match self.current_spec() {
            Option::Some(rd) => rd.wf(),
            Option::None => true,
        }
    }

    /// A reader that has not pulled anything yet.
    pub open spec fn fresh(&self) -> bool {
        self.counter_spec() == self.start() && self.current_spec() is None
    }

    /// Distinct counters probe distinct names.
    proof fn lemma_probe_injective(&self, k1: nat, k2: nat)
        requires
            self.probe_name(k1) == self.probe_name(k2),
        ensures
            k1 == k2,
    {
        let pre = self.name_start();
        let tail = self.name_end() + self.name_ext();
        assert(pre + dec_str(k1) + self.name_end() + self.name_ext() =~= pre + dec_str(k1) + tail);
        assert(pre + dec_str(k2) + self.name_end() + self.name_ext() =~= pre + dec_str(k2) + tail);
        crate::names::lemma_dec_str_embed_injective(pre, k1, k2, tail);
    }

    /// No more consecutive parts can be present than the directory holds
    /// files.
    proof fn lemma_present_run_bound(&self, k: nat, m: nat)
        requires
            self.dir_spec().wf(),
            forall|i: nat| i < m ==> #[trigger] self.part_present((k + i) as nat),
        ensures
            m <= self.dir_spec().file_count(),
    {
        broadcast use vstd::set::group_set_axioms;

        let files = self.dir_spec().files_view();
        let pick = |i: int|
            choose|j: int| 0 <= j < files.len() && (#[trigger] files[j].name)@ == self.probe_name(
                (k + i) as nat,
            );
        let idx = Seq::new(m, pick);
        assert forall|i: int| 0 <= i < m implies {
            &&& 0 <= #[trigger] idx[i] < files.len()
            &&& files[idx[i]].name@ == self.probe_name((k + i) as nat)
        } by {
            assert(self.part_present((k + i) as nat));
        }
        assert(idx.no_duplicates()) by {
            assert forall|i1: int, i2: int|
                0 <= i1 < m && 0 <= i2 < m && i1 != i2 implies idx[i1] != idx[i2] by {
                if idx[i1] == idx[i2] {
                    assert(files[idx[i1]].name@ == self.probe_name((k + i1) as nat));
                    assert(files[idx[i2]].name@ == self.probe_name((k + i2) as nat));
                    self.lemma_probe_injective((k + i1) as nat, (k + i2) as nat);
                }
            }
        }
        idx.unique_seq_to_set();
        vstd::set_lib::lemma_int_range(0, files.len() as int);
        assert(idx.to_set().subset_of(vstd::set_lib::set_int_range(0, files.len() as int)));
        vstd::set_lib::lemma_len_subset(
            idx.to_set(),
            vstd::set_lib::set_int_range(0, files.len() as int),
        );
    }

    /// From any counter there is a first absent part.
    proof fn lemma_run_exists(&self, k: nat)
        requires
            self.dir_spec().wf(),
        ensures
            exists|n: nat| self.has_run_from(k, n),
    {
        let bound = self.dir_spec().file_count() + 1;
        if forall|i: nat| i < bound ==> #[trigger] self.part_present((k + i) as nat) {
            self.lemma_present_run_bound(k, bound);
            assert(false);
        }
        let j = choose|j: nat| j < bound && !#[trigger] self.part_present((k + j) as nat);
        self.lemma_first_absent(k, j);
    }

    /// Below a known absent part there is a first absent part.
    proof fn lemma_first_absent(&self, k: nat, j: nat)
        requires
            !self.part_present((k + j) as nat),
        ensures
            exists|n: nat| self.has_run_from(k, n),
        decreases j,
    {
        if forall|i: nat| i < j ==> #[trigger] self.part_present((k + i) as nat) {
            assert(self.has_run_from(k, j));
        } else {
            let i = choose|i: nat| i < j && !#[trigger] self.part_present((k + i) as nat);
            self.lemma_first_absent(k, i);
        }
    }

    /// The length of a present run is determined.
    proof fn lemma_run_unique(&self, k: nat, n1: nat, n2: nat)
        requires
            self.has_run_from(k, n1),
            self.has_run_from(k, n2),
        ensures
            n1 == n2,
    {
        if n1 < n2 {
            assert(self.part_present((k + n1) as nat));
        } else if n2 < n1 {
            assert(self.part_present((k + n2) as nat));
        }
    }

    /// A present part shifts the run by one: the records still to come from
    /// counter `k` start with the lines of part `k`.
    proof fn lemma_open_shift(&self, k: nat)
        requires
            self.dir_spec().wf(),
            self.part_present(k),
        ensures
            self.run_len_from(k) >= 1,
            self.run_records_from(k, self.run_len_from(k)) == split_lines(self.part_data(k))
                + self.run_records_from((k + 1) as nat, self.run_len_from((k + 1) as nat)),
    {
        self.lemma_run_exists(k);
        let n = self.run_len_from(k);
        assert(self.has_run_from(k, n));
        if n == 0 {
            assert(self.part_present((k + 0) as nat));
            assert(false);
        }
        assert(self.has_run_from((k + 1) as nat, (n - 1) as nat)) by {
            assert forall|i: nat| i < n - 1 implies #[trigger] part_present(
                self.dir_spec(),
                self.name_start(),
                self.name_end(),
                self.name_ext(),
                ((k + 1) + i) as nat,
            ) by {
                assert(self.part_present((k + (i + 1)) as nat));
            }
            assert(!self.part_present((k + n) as nat));
            assert(((k + 1) + (n - 1)) as nat == (k + n) as nat);
        }
        let m = self.run_len_from((k + 1) as nat);
        assert(self.has_run_from((k + 1) as nat, m));
        self.lemma_run_unique((k + 1) as nat, m, (n - 1) as nat);
    }

    /// An absent part ends the run: nothing more comes from counter `k`.
    proof fn lemma_run_empty(&self, k: nat)
        requires
            !self.part_present(k),
        ensures
            self.run_len_from(k) == 0,
            self.run_records_from(k, self.run_len_from(k)) == Seq::<Seq<u8>>::empty(),
    {
        assert(self.part_present((k + 0) as nat) == self.part_present(k));
        assert(self.has_run_from(k, 0));
        let n = self.run_len_from(k);
        assert(self.has_run_from(k, n));
        self.lemma_run_unique(k, n, 0);
    }

    /// For a fresh reader whose run from the start counter has length `n`,
    /// what remains to be read is exactly the records of those `n` parts.
    /// With the end-detection clauses of [`SplitFileIter::read_all`] this
    /// says: with parts `start .. start + n` present and the next one
    /// absent, the reader yields exactly their records and stops without an
    /// error.
    pub proof fn lemma_remaining_of_fresh(&self, n: nat)
        requires
            self.wf(),
            self.fresh(),
            self.has_run(n),
        ensures
            self.remaining_records() == self.run_records(n),
    {
        let k = self.counter_spec();
        assert(self.has_run_from(k, n));
        let m = self.run_len_from(k);
        assert(self.has_run_from(k, m));
        self.lemma_run_unique(k, m, n);
    }

    /// Builds the file name probed for counter `k`.
    fn make_name(&self, k: usize) -> (r: String)
        ensures
            r@ == self.probe_name(k as nat),
    {
        let mut s = self.file_name_start.clone();
        let num = crate::names::u64_to_string(k as u64);
        s.append(num.as_str());
        s.append(self.file_name_end.as_str());
        s.append(self.file_name_extension.as_str());
        proof {
            assert(s@ =~= self.probe_name(k as nat));
        }
        s
    }

    /// Creates a reader that will probe `dir` for parts starting at
    /// `counter_start`.
    pub fn new(
        dir: Directory,
        file_name_start: &str,
        file_name_end: &str,
        file_name_extension: &str,
        counter_start: usize,
    ) -> (r: SplitFileIter)
        requires
            dir.wf(),
        ensures
            r.wf(),
            r.fresh(),
            r.dir_spec() == dir,
            r.name_start() == file_name_start@,
            r.name_end() == file_name_end@,
            r.name_ext() == file_name_extension@,
            r.start() == counter_start as nat,
    {
        SplitFileIter {
            dir,
            file_name_start: String::from_str(file_name_start),
            file_name_end: String::from_str(file_name_end),
            file_name_extension: String::from_str(file_name_extension),
            counter_start,
            counter: counter_start,
            current_file: None,
        }
    }

    /// Probes the file of the current counter and opens it as the current
    /// part; a missing file is reported as a not-found I/O failure and
    /// changes nothing. Whether that means the end of the sequence or a
    /// fatal error is the caller's distinction.
    pub fn rotate_file(&mut self) -> (r: Result<(), Error>)
        requires
            old(self).wf(),
            old(self).counter_spec() < usize::MAX,
        ensures
            final(self).wf(),
            final(self).dir_spec() == old(self).dir_spec(),
            final(self).name_start() == old(self).name_start(),
            final(self).name_end() == old(self).name_end(),
            final(self).name_ext() == old(self).name_ext(),
            final(self).start() == old(self).start(),
            match r {
                Result::Ok(()) => {
                    &&& old(self).part_present(old(self).counter_spec())
                    &&& final(self).counter_spec() == old(self).counter_spec() + 1
                    &&& final(self).current_spec() is Some
                    &&& final(self).current_spec().unwrap().remaining() == old(self).part_data(
                        old(self).counter_spec(),
                    )
                },
                Result::Err(e) => {
                    &&& e == Error::Io(IoKind::NotFound)
                    &&& !old(self).part_present(old(self).counter_spec())
                    &&& final(self).counter_spec() == old(self).counter_spec()
                    &&& final(self).current_spec() == old(self).current_spec()
                },
            },
    {
        let filename = self.make_name(self.counter);
        let data = match self.dir.lookup(&filename) {
            Option::Some(d) => crate::lines::copy_byte_range(d.as_slice(), 0, d.len()),
            Option::None => {
                return Err(Error::Io(IoKind::NotFound));
            },
        };
        let dr = DocReader::new(data);
        self.counter = self.counter + 1;
        self.current_file = Some(dr);
        proof {
            assert(self.part_present(old(self).counter_spec()));
            assert forall|i: nat|
                self.start() <= i < self.counter_spec() implies #[trigger] self.part_present(i) by {
                if i < old(self).counter_spec() {
                    assert(old(self).part_present(i));
                }
            }
        }
        Ok(())
    }

    /// Pulls the next record: the rest of the open part, or the first
    /// record of the next part present. A missing part file on the very
    /// first probe is the fatal not-found failure; a missing part file
    /// after at least one part was opened is the normal end.
    pub fn next(&mut self) -> (r: Option<Result<Vec<u8>, Error>>)
        requires
            old(self).wf(),
            old(self).start() + old(self).dir_spec().file_count() < usize::MAX,
        ensures
            final(self).wf(),
            final(self).dir_spec() == old(self).dir_spec(),
            final(self).name_start() == old(self).name_start(),
            final(self).name_end() == old(self).name_end(),
            final(self).name_ext() == old(self).name_ext(),
            final(self).start() == old(self).start(),
            final(self).counter_spec() >= old(self).counter_spec(),
            final(self).counter_spec() > old(self).counter_spec() ==> old(self).part_present(
                old(self).counter_spec(),
            ),
            match r {
                Option::Some(res) => match res {
                    Result::Ok(line) => {
                        &&& old(self).remaining_records().len() > 0
                        &&& line@ == old(self).remaining_records()[0]
                        &&& final(self).remaining_records() == old(
                            self,
                        ).remaining_records().drop_first()
                    },
                    Result::Err(e) => {
                        &&& e == Error::Io(IoKind::NotFound)
                        &&& old(self).counter_spec() == old(self).start()
                        &&& !old(self).part_present(old(self).start())
                        &&& final(self).remaining_records() == old(self).remaining_records()
                    },
                },
                Option::None => {
                    &&& old(self).remaining_records().len() == 0
                    &&& !(old(self).counter_spec() == old(self).start() && !old(
                        self,
                    ).part_present(old(self).start()))
                    &&& final(self).remaining_records() == old(self).remaining_records()
                },
            },
    {
        loop
            invariant
                self.wf(),
                self.dir_spec() == old(self).dir_spec(),
                self.name_start() == old(self).name_start(),
                self.name_end() == old(self).name_end(),
                self.name_ext() == old(self).name_ext(),
                self.start() == old(self).start(),
                self.counter_spec() >= old(self).counter_spec(),
                old(self).start() <= old(self).counter_spec(),
                old(self).start() + old(self).dir_spec().file_count() < usize::MAX,
                self.remaining_records() == old(self).remaining_records(),
                self.counter_spec() > old(self).counter_spec() ==> old(self).part_present(
                    old(self).counter_spec(),
                ),
            decreases
                    2 * (self.start() + self.dir_spec().file_count() + 1 - self.counter_spec()) + (
                    if self.current_spec() is Some {
                        1int
                    } else {
                        0int
                    }),
        {
            proof {
                assert forall|i: nat|
                    i < self.counter_spec() - self.start() implies #[trigger] self.part_present(
                    (self.start() + i) as nat,
                ) by {
                    assert(self.part_present((self.start() + i) as nat));
                }
                self.lemma_present_run_bound(
                    self.start(),
                    (self.counter_spec() - self.start()) as nat,
                );
            }
            let ghost pre = *self;
            let mut cur: Option<DocReader> = None;
            core::mem::swap(&mut cur, &mut self.current_file);
            match cur {
                Option::Some(mut reader) => {
                    let ghost rem = reader.remaining();
                    match reader.next() {
                        Option::Some(line) => {
                            self.current_file = Some(reader);
                            proof {
                                assert(split_lines(rem) == seq![next_line(rem)] + split_lines(
                                    rem.skip(next_line(rem).len() as int),
                                ));
                                assert(pre.remaining_records() =~= seq![line@]
                                    + self.remaining_records());
                                assert(self.remaining_records() =~= pre.remaining_records(
                                ).drop_first());
                                assert(pre.remaining_records()[0] == line@);
                            }
                            return Some(Ok(line));
                        },
                        Option::None => {
                            proof {
                                assert(split_lines(rem) =~= Seq::<Seq<u8>>::empty());
                                assert(self.remaining_records() =~= pre.remaining_records());
                            }
                        },
                    }
                },
                Option::None => {
                    let at_start = self.counter == self.counter_start;
                    let ghost k = self.counter_spec();
                    match self.rotate_file() {
                        Result::Ok(()) => {
                            proof {
                                pre.lemma_open_shift(k);
                                let reader = self.current_spec().unwrap();
                                assert(split_lines(reader.remaining()) == split_lines(
                                    pre.part_data(k),
                                ));
                                assert(self.remaining_records() =~= pre.remaining_records());
                            }
                        },
                        Result::Err(e) => {
                            proof {
                                pre.lemma_run_empty(k);
                                assert(pre.remaining_records() =~= Seq::<Seq<u8>>::empty());
                            }
                            if at_start {
                                return Some(Err(e));
                            } else {
                                return None;
                            }
                        },
                    }
                },
            }
        }
    }

    /// Reads everything that remains, one record per entry, in order. The
    /// result is `Ok` with the concatenated records of every consecutive
    /// part present, or the not-found failure when the very first part is
    /// already missing.
    pub fn read_all(&mut self) -> (r: Result<Vec<Vec<u8>>, Error>)
        requires
            old(self).wf(),
            old(self).start() + old(self).dir_spec().file_count() < usize::MAX,
        ensures
            final(self).wf(),
            match r {
                Result::Ok(v) => {
                    &&& v.deep_view() == old(self).remaining_records()
                    &&& !(old(self).counter_spec() == old(self).start() && !old(
                        self,
                    ).part_present(old(self).start()))
                },
                Result::Err(e) => {
                    &&& e == Error::Io(IoKind::NotFound)
                    &&& old(self).counter_spec() == old(self).start()
                    &&& !old(self).part_present(old(self).start())
                },
            },
    {
        let mut out: Vec<Vec<u8>> = Vec::new();
        loop
            invariant
                self.wf(),
                self.dir_spec() == old(self).dir_spec(),
                self.name_start() == old(self).name_start(),
                self.name_end() == old(self).name_end(),
                self.name_ext() == old(self).name_ext(),
                self.start() == old(self).start(),
                self.counter_spec() >= old(self).counter_spec(),
                old(self).start() <= old(self).counter_spec(),
                old(self).start() + old(self).dir_spec().file_count() < usize::MAX,
                out.deep_view() + self.remaining_records() == old(self).remaining_records(),
                self.counter_spec() > old(self).counter_spec() ==> old(self).part_present(
                    old(self).counter_spec(),
                ),
            decreases self.remaining_records().len(),
        {
            let ghost pre = *self;
            let ghost out0 = out.deep_view();
            match self.next() {
                Option::None => {
                    proof {
                        assert(out.deep_view() =~= old(self).remaining_records());
                        if old(self).counter_spec() == old(self).start() && !old(
                            self,
                        ).part_present(old(self).start()) {
                            if pre.counter_spec() == pre.start() {
                                assert(false);
                            } else {
                                assert(pre.counter_spec() > old(self).counter_spec());
                                assert(false);
                            }
                        }
                    }
                    return Ok(out);
                },
                Option::Some(res) => match res {
                    Result::Ok(line) => {
                        proof {
                            assert((out0 + pre.remaining_records()) =~= (out0.push(line@)
                                + pre.remaining_records().drop_first()));
                        }
                        out.push(line);
                        proof {
                            assert(out.deep_view() =~~= out0.push(line@));
                        }
                    },
                    Result::Err(e) => {
                        proof {
                            assert(pre.counter_spec() == pre.start());
                            assert(old(self).counter_spec() == old(self).start());
                        }
                        return Err(e);
                    },
                },
            }
        }
    }

    /// Round-trip identity at the reader level: a fresh reader over a
    /// directory whose consecutive parts hold exactly the parts the rotating
    /// writer produced for `records` has exactly `records` left to read.
    /// Together with the contract of [`SplitFileIter::read_all`], reading the
    /// split corpus back reproduces the written record sequence, whatever the
    /// budget and however many rotations it forced.
    pub proof fn lemma_split_read_round_trip(
        &self,
        records: Seq<Seq<u8>>,
        budget: Option<usize>,
        n: nat,
    )
        requires
            self.wf(),
            self.fresh(),
            forall|i: int|
                0 <= i < records.len() ==> crate::lines::is_record(#[trigger] records[i]),
            n == crate::chunking::writer_parts(records, budget).len(),
            self.has_run(n),
            forall|i: nat|
                i < n ==> #[trigger] self.part_data((self.start() + i) as nat)
                    == crate::chunking::writer_parts(records, budget)[i as int],
        ensures
            self.remaining_records() == records,
    {
        let parts = crate::chunking::writer_parts(records, budget);
        self.lemma_remaining_of_fresh(n);
        self.lemma_run_records_parts(parts, self.start(), 0, n);
        assert(parts.skip(0) =~= parts);
        crate::chunking::lemma_round_trip(records, budget);
    }

    /// The records of the run equal the flattened lines of the matching
    /// parts.
    proof fn lemma_run_records_parts(&self, parts: Seq<Seq<u8>>, k0: nat, off: nat, n: nat)
        requires
            off + n == parts.len(),
            forall|i: nat|
                i < off + n ==> #[trigger] self.part_data((k0 + i) as nat) == parts[i as int],
        ensures
            self.run_records_from((k0 + off) as nat, n) == parts.skip(off as int).flat_map(
                |p: Seq<u8>| split_lines(p),
            ),
        decreases n,
    {
        let f = |p: Seq<u8>| split_lines(p);
        if n == 0 {
            assert(parts.skip(off as int) =~= Seq::<Seq<u8>>::empty());
            assert(parts.skip(off as int).flat_map(f) =~= Seq::<Seq<u8>>::empty());
        } else {
            self.lemma_run_records_parts(parts, k0, (off + 1) as nat, (n - 1) as nat);
            assert(self.part_data((k0 + off) as nat) == parts[off as int]);
            assert((k0 + off) as nat + 1 == (k0 + (off + 1)) as nat);
            let tail = parts.skip(off as int + 1);
            assert(parts.skip(off as int) =~= seq![parts[off as int]] + tail);
            assert((seq![parts[off as int]] + tail).map_values(f) =~= seq![f(parts[off as int])]
                + tail.map_values(f));
            vstd::seq_lib::lemma_flatten_concat(seq![f(parts[off as int])], tail.map_values(f));
            assert(seq![f(parts[off as int])].flatten() =~= f(parts[off as int])) by {
                seq![f(parts[off as int])].lemma_flatten_singleton();
            }
            assert(self.run_records_from((k0 + off) as nat, n) =~= parts.skip(off as int).flat_map(
                f,
            ));
        }
    }
}

} // verus!
