//! The nested-to-columnar flattener.
//!
//! A batch of documents becomes three flat columns — line text, label,
//! confidence — each a value array plus definition and repetition level
//! arrays of the same cardinality. Repetition level 0 marks a value that
//! starts a new document, 1 a value that continues the document's line
//! list; the scalar columns sit one nesting level shallower and repeat only
//! across documents. A document with no lines contributes nothing to the
//! line column but one entry to each scalar column.

use vstd::prelude::*;

use crate::lines::{next_line, split_lines, NEWLINE};
use crate::types::{Document, Identification, WarcHeaders};

verus! {

/// The carriage-return byte, stripped from a line end directly before a
/// newline.
pub const CARRIAGE_RETURN: u8 = 13;

/// One on-disk line reduced to its text: the trailing newline goes, and a
/// carriage return directly before it goes too.
pub open spec fn strip_line(l: Seq<u8>) -> Seq<u8> {
    if l.len() > 0 && l.last() == NEWLINE {
        let t = l.drop_last();
        if t.len() > 0 && t.last() == CARRIAGE_RETURN {
            t.drop_last()
        } else {
            t
        }
    } else {
        l
    }
}

/// The lines of a document's content, as text: split on newlines, each line
/// stripped of its terminator. A trailing newline ends the last line rather
/// than opening an empty one.
pub open spec fn content_lines(b: Seq<u8>) -> Seq<Seq<u8>> {
    split_lines(b).map_values(|l: Seq<u8>| strip_line(l))
}

/// Splits content into its lines, stripped of terminators.
pub fn split_content_lines(content: &Vec<u8>) -> (r: Vec<Vec<u8>>)
    ensures
        r.deep_view() == content_lines(content@),
{
    let mut out: Vec<Vec<u8>> = Vec::new();
    let copy = crate::lines::copy_byte_range(content.as_slice(), 0, content.len());
    proof {
        assert(copy@ =~= content@);
    }
    let mut rd = crate::reader::DocReader::new(copy);
    loop
        invariant
            rd.wf(),
            out.deep_view() + content_lines(rd.remaining()) == content_lines(content@),
        decreases rd.remaining().len(),
    {
        let ghost rem = rd.remaining();
        match rd.next() {
            Option::None => {
                proof {
                    assert(split_lines(rem) =~= Seq::<Seq<u8>>::empty());
                    assert(content_lines(rem) =~= Seq::<Seq<u8>>::empty());
                    assert(out.deep_view() =~= content_lines(content@));
                }
                return out;
            },
            Option::Some(mut line) => {
                let ghost rawline = line@;
                let ghost out0 = out.deep_view();
                proof {
                    crate::lines::lemma_next_line_len(rem);
                }
                // strip the terminator: newline first, then a carriage
                // return directly before it
                let n = line.len();
                if n > 0 && line[n - 1] == NEWLINE {
                    let _ = line.pop();
                    let m = line.len();
                    if m > 0 && line[m - 1] == CARRIAGE_RETURN {
                        let _ = line.pop();
                    }
                }
                proof {
                    assert(line@ == strip_line(rawline));
                    assert(split_lines(rem) == seq![next_line(rem)] + split_lines(
                        rd.remaining(),
                    ));
                    assert(content_lines(rem) =~= seq![strip_line(rawline)] + content_lines(
                        rd.remaining(),
                    ));
                }
                out.push(line);
                proof {
                    assert(out.deep_view() =~~= out0.push(strip_line(rawline)));
                    assert(out.deep_view() + content_lines(rd.remaining()) =~= content_lines(
                        content@,
                    ));
                }
            },
        }
    }
}

impl Document {
    /// Whether the per-line identifications line up, one per line of the
    /// content. A document is meant to keep this invariant; callers that
    /// cannot trust their input check it and reject rather than truncate
    /// or pad.
    pub fn line_identifications_consistent(&self) -> (r: bool)
        ensures
            r == (self.metadata.sentence_identifications@.len() == content_lines(
                self.content@,
            ).len()),
    {
        let lines = split_content_lines(&self.content);
        lines.len() == self.metadata.sentence_identifications.len()
    }
}

/// One column, ready for a columnar writer: values, definition levels,
/// repetition levels.
#[derive(Debug)]
pub struct Row<T>(pub Vec<T>, pub Vec<i16>, pub Vec<i16>);

/// The repetition levels one document's line list contributes: nothing for
/// an empty list, otherwise a 0 that starts the document and a 1 for every
/// further line.
pub open spec fn rep_of_count(n: nat) -> Seq<i16> {
    if n == 0 {
        Seq::<i16>::empty()
    } else {
        seq![0i16] + Seq::new((n - 1) as nat, |i: int| 1i16)
    }
}

/// The repetition levels of the whole line column.
pub open spec fn line_rep_levels(sets: Seq<Seq<Seq<u8>>>) -> Seq<i16> {
    sets.flat_map(|s: Seq<Seq<u8>>| rep_of_count(s.len()))
}

/// As many repetition levels are produced as there are values.
pub proof fn lemma_line_levels_len(sets: Seq<Seq<Seq<u8>>>)
    ensures
        line_rep_levels(sets).len() == sets.flatten().len(),
    decreases sets.len(),
{
    let f = |s: Seq<Seq<u8>>| rep_of_count(s.len());
    if sets.len() == 0 {
        assert(sets.flat_map(f) =~= Seq::<i16>::empty());
        assert(sets.flatten() =~= Seq::<Seq<u8>>::empty());
    } else {
        let front = sets.drop_last();
        lemma_line_levels_len(front);
        assert(front.push(sets.last()) =~= sets);
        front.lemma_flat_map_push(f, sets.last());
        front.lemma_flatten_push(sets.last());
        assert(f(sets.last()).len() == sets.last().len());
    }
}

/// A document reduced to what the columns carry: its lines as text, its
/// label, its confidence bits.
#[derive(Debug, Clone, PartialEq, Eq)]
pub struct SimpleDoc {
    pub lines: Vec<Vec<u8>>,
    pub label: String,
    pub prob_bits: u32,
}

impl SimpleDoc {
    /// Reduces one document.
    pub fn from(d: &Document) -> (r: SimpleDoc)
        ensures
            r.lines.deep_view() == content_lines(d.content@),
            r.label == d.metadata.identification.label,
            r.prob_bits == d.metadata.identification.prob_bits,
    {
        SimpleDoc {
            lines: split_content_lines(&d.content),
            label: d.metadata.identification.label.clone(),
            prob_bits: d.metadata.identification.prob_bits,
        }
    }

    /// Takes the document apart into its three column contributions.
    pub fn into_raw_parts(self) -> (r: (Vec<Vec<u8>>, String, u32))
        ensures
            r.0 == self.lines,
            r.1 == self.label,
            r.2 == self.prob_bits,
    {
        (self.lines, self.label, self.prob_bits)
    }
}

/// A batch of reduced documents, stored column-major: the line sets, labels
/// and confidences of the documents, index-aligned.
#[derive(Debug)]
pub struct SimpleDocsRow {
    pub line_sets: Vec<Vec<Vec<u8>>>,
    pub labels: Vec<String>,
    pub probs: Vec<u32>,
}

impl SimpleDocsRow {
    /// Regroups reduced documents column-major.
    pub fn from(docs: Vec<SimpleDoc>) -> (r: SimpleDocsRow)
        ensures
            r.line_sets@.len() == docs@.len(),
            r.labels@.len() == docs@.len(),
            r.probs@.len() == docs@.len(),
            forall|i: int|
                0 <= i < docs@.len() ==> (#[trigger] r.line_sets@[i]).deep_view() == docs@[i]
                    .lines.deep_view(),
            forall|i: int| 0 <= i < docs@.len() ==> #[trigger] r.labels@[i] == docs@[i].label,
            forall|i: int| 0 <= i < docs@.len() ==> #[trigger] r.probs@[i] == docs@[i].prob_bits,
    {
        let mut line_sets: Vec<Vec<Vec<u8>>> = Vec::new();
        let mut labels: Vec<String> = Vec::new();
        let mut probs: Vec<u32> = Vec::new();
        let mut i: usize = 0;
        while i < docs.len()
            invariant
                i <= docs@.len(),
                line_sets@.len() == i,
                labels@.len() == i,
                probs@.len() == i,
                forall|t: int|
                    0 <= t < i ==> (#[trigger] line_sets@[t]).deep_view() == docs@[t]
                        .lines.deep_view(),
                forall|t: int| 0 <= t < i ==> #[trigger] labels@[t] == docs@[t].label,
                forall|t: int| 0 <= t < i ==> #[trigger] probs@[t] == docs@[t].prob_bits,
            decreases docs@.len() - i,
        {
            let d = &docs[i];
            line_sets.push(copy_lines(&d.lines));
            labels.push(d.label.clone());
            probs.push(d.prob_bits);
            i += 1;
        }
        SimpleDocsRow { line_sets, labels, probs }
    }

    /// Reduces and regroups a batch of documents.
    pub fn from_documents(docs: &Vec<Document>) -> (r: SimpleDocsRow)
        ensures
            r.line_sets@.len() == docs@.len(),
            r.labels@.len() == docs@.len(),
            r.probs@.len() == docs@.len(),
            forall|i: int|
                0 <= i < docs@.len() ==> (#[trigger] r.line_sets@[i]).deep_view() == content_lines(
                    docs@[i].content@,
                ),
            forall|i: int|
                0 <= i < docs@.len() ==> #[trigger] r.labels@[i] == docs@[i]
                    .metadata.identification.label,
            forall|i: int|
                0 <= i < docs@.len() ==> #[trigger] r.probs@[i] == docs@[i]
                    .metadata.identification.prob_bits,
    {
        let mut reduced: Vec<SimpleDoc> = Vec::new();
        let mut i: usize = 0;
        while i < docs.len()
            invariant
                i <= docs@.len(),
                reduced@.len() == i,
                forall|t: int|
                    0 <= t < i ==> (#[trigger] reduced@[t]).lines.deep_view() == content_lines(
                        docs@[t].content@,
                    ),
                forall|t: int|
                    0 <= t < i ==> (#[trigger] reduced@[t]).label == docs@[t]
                        .metadata.identification.label,
                forall|t: int|
                    0 <= t < i ==> (#[trigger] reduced@[t]).prob_bits == docs@[t]
                        .metadata.identification.prob_bits,
            decreases docs@.len() - i,
        {
            reduced.push(SimpleDoc::from(&docs[i]));
            i += 1;
        }
        SimpleDocsRow::from(reduced)
    }

    /// The line column: every line of every document in order; definition
    /// level 1 throughout (a line, once present, is never null), repetition
    /// level 0 on each document's first line and 1 on the rest. All three
    /// arrays have the same cardinality. An empty document contributes
    /// nothing here.
    pub fn lines(&self) -> (r: Row<Vec<u8>>)
        ensures
            r.0.deep_view() == self.line_sets.deep_view().flatten(),
            r.1@.len() == r.0@.len(),
            r.2@.len() == r.0@.len(),
            forall|i: int| 0 <= i < r.1@.len() ==> #[trigger] r.1@[i] == 1i16,
            r.2@ == line_rep_levels(self.line_sets.deep_view()),
    {
        let mut vals: Vec<Vec<u8>> = Vec::new();
        let mut rep: Vec<i16> = Vec::new();
        let mut i: usize = 0;
        while i < self.line_sets.len()
            invariant
                i <= self.line_sets@.len(),
                vals.deep_view() == self.line_sets.deep_view().take(i as int).flatten(),
                rep@ == line_rep_levels(self.line_sets.deep_view().take(i as int)),
            decreases self.line_sets@.len() - i,
        {
            let ghost f = |s: Seq<Seq<u8>>| rep_of_count(s.len());
            let ghost sets = self.line_sets.deep_view();
            let ghost vals0 = vals.deep_view();
            let ghost rep0 = rep@;
            let set = &self.line_sets[i];
            let mut j: usize = 0;
            while j < set.len()
                invariant
                    j <= set@.len(),
                    set == &self.line_sets@[i as int],
                    i < self.line_sets@.len(),
                    sets == self.line_sets.deep_view(),
                    vals0 == sets.take(i as int).flatten(),
                    rep0 == line_rep_levels(sets.take(i as int)),
                    vals.deep_view() == vals0 + set.deep_view().take(j as int),
                    rep@ == rep0 + rep_of_count(set@.len() as nat).take(j as int),
                decreases set@.len() - j,
            {
                let ghost v0 = vals.deep_view();
                vals.push(crate::lines::copy_byte_range(set[j].as_slice(), 0, set[j].len()));
                if j == 0 {
                    rep.push(0);
                } else {
                    rep.push(1);
                }
                proof {
                    assert(vals.deep_view() =~~= v0.push(set@[j as int]@));
                    assert(set.deep_view().take(j + 1) =~= set.deep_view().take(j as int).push(
                        set@[j as int].deep_view(),
                    ));
                    assert(vals.deep_view() =~~= vals0 + set.deep_view().take(j + 1));
                    assert(rep_of_count(set@.len() as nat)[j as int] == (if j == 0 {
                        0i16
                    } else {
                        1i16
                    }));
                    assert(rep@ =~= rep0 + rep_of_count(set@.len() as nat).take(j + 1));
                }
                j += 1;
            }
            proof {
                assert(set.deep_view().take(set@.len() as int) =~= set.deep_view());
                assert(rep_of_count(set@.len() as nat).take(set@.len() as int) =~= rep_of_count(
                    set@.len() as nat,
                ));
                assert(sets.take(i + 1) =~= sets.take(i as int).push(set.deep_view()));
                sets.take(i as int).lemma_flatten_push(set.deep_view());
                sets.take(i as int).lemma_flat_map_push(f, set.deep_view());
                assert(vals.deep_view() =~= sets.take(i + 1).flatten());
                assert(rep@ =~= line_rep_levels(sets.take(i + 1)));
            }
            i += 1;
        }
        proof {
            assert(self.line_sets.deep_view().take(self.line_sets@.len() as int)
                =~= self.line_sets.deep_view());
        }
        let mut def: Vec<i16> = Vec::new();
        let target = vals.len();
        let mut k: usize = 0;
        while k < target
            invariant
                k <= target,
                def@.len() == k,
                forall|t: int| 0 <= t < k ==> #[trigger] def@[t] == 1i16,
            decreases target - k,
        {
            def.push(1);
            k += 1;
        }
        proof {
            assert(vals.deep_view().len() == vals@.len());
            assert(rep@.len() == vals@.len()) by {
                lemma_line_levels_len(self.line_sets.deep_view());
            }
        }
        Row(vals, def, rep)
    }

    /// The label column: one value per document, definition and repetition
    /// level 0 throughout (required scalars, repeating only across
    /// documents). All three arrays have the same cardinality.
    pub fn labels(&self) -> (r: Row<String>)
        ensures
            r.0@ == self.labels@,
            r.1@.len() == r.0@.len(),
            r.2@.len() == r.0@.len(),
            forall|i: int| 0 <= i < r.1@.len() ==> #[trigger] r.1@[i] == 0i16,
            forall|i: int| 0 <= i < r.2@.len() ==> #[trigger] r.2@[i] == 0i16,
    {
        let mut vals: Vec<String> = Vec::new();
        let mut i: usize = 0;
        while i < self.labels.len()
            invariant
                i <= self.labels@.len(),
                vals@.len() == i,
                forall|t: int| 0 <= t < i ==> #[trigger] vals@[t] == self.labels@[t],
            decreases self.labels@.len() - i,
        {
            vals.push(self.labels[i].clone());
            i += 1;
        }
        proof {
            assert(vals@ =~= self.labels@);
        }
        let (def, rep) = zero_levels(vals.len());
        Row(vals, def, rep)
    }

    /// The confidence column: one value per document, definition and
    /// repetition level 0 throughout, like the label column. All three
    /// arrays have the same cardinality.
    pub fn probs(&self) -> (r: Row<u32>)
        ensures
            r.0@ == self.probs@,
            r.1@.len() == r.0@.len(),
            r.2@.len() == r.0@.len(),
            forall|i: int| 0 <= i < r.1@.len() ==> #[trigger] r.1@[i] == 0i16,
            forall|i: int| 0 <= i < r.2@.len() ==> #[trigger] r.2@[i] == 0i16,
    {
        let mut vals: Vec<u32> = Vec::new();
        let mut i: usize = 0;
        while i < self.probs.len()
            invariant
                i <= self.probs@.len(),
                vals@.len() == i,
                forall|t: int| 0 <= t < i ==> #[trigger] vals@[t] == self.probs@[t],
            decreases self.probs@.len() - i,
        {
            vals.push(self.probs[i]);
            i += 1;
        }
        proof {
            assert(vals@ =~= self.probs@);
        }
        let (def, rep) = zero_levels(vals.len());
        Row(vals, def, rep)
    }
}

/// Two level arrays of `n` zeros each.
fn zero_levels(n: usize) -> (r: (Vec<i16>, Vec<i16>))
    ensures
        r.0@.len() == n,
        r.1@.len() == n,
        forall|i: int| 0 <= i < n ==> #[trigger] r.0@[i] == 0i16,
        forall|i: int| 0 <= i < n ==> #[trigger] r.1@[i] == 0i16,
{
    let mut a: Vec<i16> = Vec::new();
    let mut b: Vec<i16> = Vec::new();
    let mut k: usize = 0;
    while k < n
        invariant
            k <= n,
            a@.len() == k,
            b@.len() == k,
            forall|t: int| 0 <= t < k ==> #[trigger] a@[t] == 0i16,
            forall|t: int| 0 <= t < k ==> #[trigger] b@[t] == 0i16,
        decreases n - k,
    {
        a.push(0);
        b.push(0);
        k += 1;
    }
    (a, b)
}

/// Copies a set of lines.
fn copy_lines(lines: &Vec<Vec<u8>>) -> (r: Vec<Vec<u8>>)
    ensures
        r.deep_view() == lines.deep_view(),
{
    let mut out: Vec<Vec<u8>> = Vec::new();
    let mut i: usize = 0;
    while i < lines.len()
        invariant
            i <= lines@.len(),
            out.deep_view() == lines.deep_view().take(i as int),
        decreases lines@.len() - i,
    {
        let ghost o0 = out.deep_view();
        out.push(crate::lines::copy_byte_range(lines[i].as_slice(), 0, lines[i].len()));
        proof {
            assert(out.deep_view() =~~= o0.push(lines@[i as int]@));
            assert(out.deep_view() =~~= lines.deep_view().take(i + 1));
        }
        i += 1;
    }
    proof {
        assert(lines.deep_view().take(lines@.len() as int) =~= lines.deep_view());
    }
    out
}

/// The annotation list reduced to its strings; what the annotation copies
/// in this module preserve.
pub open spec fn opt_vec_view(o: Option<Vec<String>>) -> Option<Seq<String>> {
    match o {
        Option::None => Option::<Seq<String>>::None,
        Option::Some(v) => Some(v@),
    }
}

/// A batch of documents regrouped field-major, every field of every
/// document, for a writer that walks one field at a time.
#[derive(Debug)]
pub struct DocGroup {
    pub contents: Vec<Vec<u8>>,
    pub warc_headers: Vec<WarcHeaders>,
    pub annotations: Vec<Option<Vec<String>>>,
    pub ids: Vec<Identification>,
    pub line_ids: Vec<Vec<Option<Identification>>>,
}

impl DocGroup {
    /// Regroups a batch of documents field by field, preserving order and
    /// every value.
    pub fn new(docs: &Vec<Document>) -> (r: DocGroup)
        ensures
            r.contents@.len() == docs@.len(),
            r.warc_headers@.len() == docs@.len(),
            r.annotations@.len() == docs@.len(),
            r.ids@.len() == docs@.len(),
            r.line_ids@.len() == docs@.len(),
            forall|i: int|
                0 <= i < docs@.len() ==> (#[trigger] r.contents@[i])@ == docs@[i].content@,
            forall|i: int|
                0 <= i < docs@.len() ==> (#[trigger] r.warc_headers@[i])@ == docs@[i]
                    .warc_headers@,
            forall|i: int|
                0 <= i < docs@.len() ==> opt_vec_view(#[trigger] r.annotations@[i]) == opt_vec_view(
                    docs@[i].metadata.annotation,
                ),
            forall|i: int|
                0 <= i < docs@.len() ==> #[trigger] r.ids@[i] == docs@[i].metadata.identification,
            forall|i: int|
                0 <= i < docs@.len() ==> (#[trigger] r.line_ids@[i])@ == docs@[i]
                    .metadata.sentence_identifications@,
    {
        let mut contents: Vec<Vec<u8>> = Vec::new();
        let mut warc_headers: Vec<WarcHeaders> = Vec::new();
        let mut annotations: Vec<Option<Vec<String>>> = Vec::new();
        let mut ids: Vec<Identification> = Vec::new();
        let mut line_ids: Vec<Vec<Option<Identification>>> = Vec::new();
        let mut i: usize = 0;
        while i < docs.len()
            invariant
                i <= docs@.len(),
                contents@.len() == i,
                warc_headers@.len() == i,
                annotations@.len() == i,
                ids@.len() == i,
                line_ids@.len() == i,
                forall|t: int| 0 <= t < i ==> (#[trigger] contents@[t])@ == docs@[t].content@,
                forall|t: int|
                    0 <= t < i ==> (#[trigger] warc_headers@[t])@ == docs@[t].warc_headers@,
                forall|t: int|
                    0 <= t < i ==> opt_vec_view(#[trigger] annotations@[t]) == opt_vec_view(
                        docs@[t].metadata.annotation,
                    ),
                forall|t: int| 0 <= t < i ==> #[trigger] ids@[t] == docs@[t].metadata.identification,
                forall|t: int|
                    0 <= t < i ==> (#[trigger] line_ids@[t])@ == docs@[t]
                        .metadata.sentence_identifications@,
            decreases docs@.len() - i,
        {
            let d = &docs[i];
            contents.push(crate::lines::copy_byte_range(d.content.as_slice(), 0, d.content.len()));
            warc_headers.push(copy_headers(&d.warc_headers));
            annotations.push(copy_annotation(&d.metadata.annotation));
            ids.push(Identification {
                label: d.metadata.identification.label.clone(),
                prob_bits: d.metadata.identification.prob_bits,
            });
            line_ids.push(copy_line_ids(&d.metadata.sentence_identifications));
            proof {
                assert(contents@[i as int]@ =~= docs@[i as int].content@);
            }
            i += 1;
        }
        DocGroup { contents, warc_headers, annotations, ids, line_ids }
    }
}

/// Copies a header list, key and value each.
fn copy_headers(h: &WarcHeaders) -> (r: WarcHeaders)
    ensures
        r@ == h@,
{
    let mut out: WarcHeaders = Vec::new();
    let mut i: usize = 0;
    while i < h.len()
        invariant
            i <= h@.len(),
            out@ == h@.take(i as int),
        decreases h@.len() - i,
    {
        let pair = &h[i];
        out.push((pair.0.clone(), pair.1.clone()));
        proof {
            assert(out@ =~= h@.take(i + 1));
        }
        i += 1;
    }
    proof {
        assert(h@.take(h@.len() as int) =~= h@);
    }
    out
}

/// Copies an annotation list, preserving its strings.
fn copy_annotation(a: &Option<Vec<String>>) -> (r: Option<Vec<String>>)
    ensures
        opt_vec_view(r) == opt_vec_view(*a),
{
    match a {
        Option::None => None,
        Option::Some(v) => {
            let mut out: Vec<String> = Vec::new();
            let mut i: usize = 0;
            while i < v.len()
                invariant
                    i <= v@.len(),
                    out@ == v@.take(i as int),
                decreases v@.len() - i,
            {
                out.push(v[i].clone());
                proof {
                    assert(out@ =~= v@.take(i + 1));
                }
                i += 1;
            }
            proof {
                assert(v@.take(v@.len() as int) =~= v@);
            }
            Some(out)
        },
    }
}

/// Copies a per-line identification list.
fn copy_line_ids(v: &Vec<Option<Identification>>) -> (r: Vec<Option<Identification>>)
    ensures
        r@ == v@,
{
    let mut out: Vec<Option<Identification>> = Vec::new();
    let mut i: usize = 0;
    while i < v.len()
        invariant
            i <= v@.len(),
            out@ == v@.take(i as int),
        decreases v@.len() - i,
    {
        let entry: Option<Identification> = match &v[i] {
            Option::Some(id) => Some(
                Identification { label: id.label.clone(), prob_bits: id.prob_bits },
            ),
            Option::None => None,
        };
        out.push(entry);
        proof {
            assert(out@ =~= v@.take(i + 1));
        }
        i += 1;
    }
    proof {
        assert(v@.take(v@.len() as int) =~= v@);
    }
    out
}

/// One field of a document, as [`DocumentFieldsIterator`] hands them out.
#[derive(Debug, Clone, PartialEq, Eq)]
pub enum DocPart {
    Content(Vec<u8>),
    Warc(WarcHeaders),
    Annotation(Option<Vec<String>>),
    Id(Identification),
    LineIds(Vec<Option<Identification>>),
}

/// Walks the five fields of one document in column order.
pub struct DocumentFieldsIterator<'a> {
    pub inner: &'a Document,
    pub part_nb: usize,
}

impl Document {
    /// Starts a walk over this document's fields.
    pub fn iter_parquet<'a>(&'a self) -> (r: DocumentFieldsIterator<'a>)
        ensures
            r.inner == self,
            r.part_nb == 0,
    {
        DocumentFieldsIterator { inner: self, part_nb: 0 }
    }
}

impl<'a> DocumentFieldsIterator<'a> {
    /// The next field: content, headers, annotations, identification, then
    /// the per-line identifications; `None` once all five are out.
    pub fn next(&mut self) -> (r: Option<DocPart>)
        ensures
            final(self).inner == old(self).inner,
            final(self).part_nb == (if old(self).part_nb < 5 {
                old(self).part_nb + 1
            } else {
                old(self).part_nb as int
            }),
            old(self).part_nb == 0 ==> (r matches Some(p) && (p matches DocPart::Content(c)
                && c@ == old(self).inner.content@)),
            old(self).part_nb == 1 ==> (r matches Some(p) && (p matches DocPart::Warc(h) && h@
                == old(self).inner.warc_headers@)),
            old(self).part_nb == 2 ==> (r matches Some(p) && (p matches DocPart::Annotation(a)
                && opt_vec_view(a) == opt_vec_view(old(self).inner.metadata.annotation))),
            old(self).part_nb == 3 ==> (r matches Some(p) && (p matches DocPart::Id(id) && id
                == old(self).inner.metadata.identification)),
            old(self).part_nb == 4 ==> (r matches Some(p) && (p matches DocPart::LineIds(l) && l@
                == old(self).inner.metadata.sentence_identifications@)),
            old(self).part_nb >= 5 ==> r is None,
    {
        let ret: Option<DocPart> = if self.part_nb == 0 {
            let c = crate::lines::copy_byte_range(
                self.inner.content.as_slice(),
                0,
                self.inner.content.len(),
            );
            proof {
                assert(c@ =~= self.inner.content@);
            }
            Some(DocPart::Content(c))
        } else if self.part_nb == 1 {
            Some(DocPart::Warc(copy_headers(&self.inner.warc_headers)))
        } else if self.part_nb == 2 {
            Some(DocPart::Annotation(copy_annotation(&self.inner.metadata.annotation)))
        } else if self.part_nb == 3 {
            Some(
                DocPart::Id(
                    Identification {
                        label: self.inner.metadata.identification.label.clone(),
                        prob_bits: self.inner.metadata.identification.prob_bits,
                    },
                ),
            )
        } else if self.part_nb == 4 {
            Some(DocPart::LineIds(copy_line_ids(&self.inner.metadata.sentence_identifications)))
        } else {
            None
        };
        if self.part_nb < 5 {
            self.part_nb = self.part_nb + 1;
        }
        ret
    }
}

} // verus!
