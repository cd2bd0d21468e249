//! The document model.
//!
//! A document is UTF-8 text plus string headers, a language identification,
//! optional annotations, and one optional identification per line of the
//! text. The confidence of an identification is carried as the raw bits of
//! an IEEE 754 single-precision number, so values survive every conversion
//! bit for bit.

use vstd::prelude::*;

use crate::error::Error;

verus! {

use vstd::string::StringExecFns;

/// A name for what oxilangtag's `LanguageTag::parse` decides: whether `s` is
/// a well-formed RFC 5646 language tag. Well-formedness is a function of the
/// string alone.
pub uninterp spec fn is_language_tag(s: Seq<char>) -> bool;

/// Relies on oxilangtag's `LanguageTag::parse` to decide well-formedness of
/// a language tag.
#[verifier::external_body]
fn parse_language_tag(s: &str) -> (r: bool)
    ensures
        r == is_language_tag(s@),
{
    oxilangtag::LanguageTag::parse(s).is_ok()
}

/// The bit pattern of the single-precision number one, the default
/// confidence.
pub const PROB_ONE_BITS: u32 = 0x3F80_0000;

/// Language identification: a language tag and a confidence in `[0, 1]`,
/// carried as raw single-precision bits.
#[derive(Debug, Clone, PartialEq, Eq)]
pub struct Identification {
    pub label: String,
    pub prob_bits: u32,
}

impl Identification {
    /// Wraps an already validated tag; see [`Identification::parse`] for
    /// validating one.
    pub fn new(label: String, prob_bits: u32) -> (r: Identification)
        ensures
            r.label == label,
            r.prob_bits == prob_bits,
    {
        Identification { label, prob_bits }
    }

    /// Validates `label` as a language tag and wraps it; a malformed tag is
    /// rejected, exactly when oxilangtag rejects it.
    pub fn parse(label: String, prob_bits: u32) -> (r: Result<Identification, Error>)
        ensures
            r is Ok <==> is_language_tag(label@),
            r is Ok ==> r.unwrap().label == label && r.unwrap().prob_bits == prob_bits,
            r is Err ==> r.unwrap_err() == Error::MalformedRecord,
    {
        if parse_language_tag(label.as_str()) {
            Ok(Identification { label, prob_bits })
        } else {
            Err(Error::MalformedRecord)
        }
    }

    /// The identification's label.
    pub fn label(&self) -> (r: &String)
        ensures
            r == &self.label,
    {
        &self.label
    }

    /// The identification's confidence, as raw single-precision bits.
    pub fn prob_bits(&self) -> (r: u32)
        ensures
            r == self.prob_bits,
    {
        self.prob_bits
    }
}

/// An identifier produces a language identification for a piece of text.
/// Implementors plug into processing pipelines; the library states nothing
/// about what they return.
pub trait Identifier {
    /// Identifies `sentence`; `None` where no language can be told.
    fn identify(&self, sentence: &str) -> Result<Option<Identification>, Error>;
}

/// Document headers: key/value string pairs, order irrelevant to the model.
pub type WarcHeaders = Vec<(String, String)>;

/// Document metadata: the document-level identification, optional
/// annotations, and one optional identification per line of the content.
#[derive(Debug, Clone, PartialEq, Eq)]
pub struct Metadata {
    pub identification: Identification,
    pub annotation: Option<Vec<String>>,
    pub sentence_identifications: Vec<Option<Identification>>,
}

impl Metadata {
    /// Bundles the parts of a metadata record.
    pub fn new(
        identification: Identification,
        annotation: Option<Vec<String>>,
        sentence_identifications: Vec<Option<Identification>>,
    ) -> (r: Metadata)
        ensures
            r.identification == identification,
            r.annotation == annotation,
            r.sentence_identifications == sentence_identifications,
    {
        Metadata { identification, annotation, sentence_identifications }
    }

    /// Adds an annotation, starting the list if there was none.
    pub fn add_annotation(&mut self, annotation: String)
        ensures
            final(self).identification == old(self).identification,
            final(self).sentence_identifications == old(self).sentence_identifications,
            final(self).annotation is Some,
            match old(self).annotation {
                Option::None => final(self).annotation.unwrap()@ == seq![annotation],
                Option::Some(a) => final(self).annotation.unwrap()@ == a@.push(annotation),
            },
    {
        let mut taken: Option<Vec<String>> = None;
        core::mem::swap(&mut taken, &mut self.annotation);
        match taken {
            Option::Some(mut a) => {
                a.push(annotation);
                self.annotation = Some(a);
            },
            Option::None => {
                let mut a: Vec<String> = Vec::new();
                a.push(annotation);
                self.annotation = Some(a);
                proof {
                    assert(self.annotation.unwrap()@ =~= seq![annotation]);
                }
            },
        }
    }

    /// The document-level identification.
    pub fn identification(&self) -> (r: &Identification)
        ensures
            r == &self.identification,
    {
        &self.identification
    }

    /// The annotations, if any.
    pub fn annotation(&self) -> (r: &Option<Vec<String>>)
        ensures
            r == &self.annotation,
    {
        &self.annotation
    }

    /// The per-line identifications.
    pub fn sentence_identifications(&self) -> (r: &Vec<Option<Identification>>)
        ensures
            r == &self.sentence_identifications,
    {
        &self.sentence_identifications
    }
}

impl Default for Metadata {
    /// English with full confidence, no annotation, and a single English
    /// line identification.
    fn default() -> (r: Metadata)
        ensures
            r.identification.label@ == "en"@,
            r.identification.prob_bits == PROB_ONE_BITS,
            r.annotation is None,
            r.sentence_identifications@.len() == 1,
            r.sentence_identifications@[0] == Some(r.identification),
    {
        let id = Identification { label: String::from_str("en"), prob_bits: PROB_ONE_BITS };
        let line_id = Identification { label: id.label.clone(), prob_bits: PROB_ONE_BITS };
        let mut sentence_identifications: Vec<Option<Identification>> = Vec::new();
        sentence_identifications.push(Some(line_id));
        let r = Metadata { identification: id, annotation: None, sentence_identifications };
        proof {
            assert(r.sentence_identifications@[0] == Some(r.identification));
        }
        r
    }
}

/// A document: content, headers and metadata. The content is the UTF-8 text
/// as bytes; its lines are delimited by newline bytes.
#[derive(Debug, Clone, PartialEq, Eq)]
pub struct Document {
    pub content: Vec<u8>,
    pub warc_headers: WarcHeaders,
    pub metadata: Metadata,
}

impl Document {
    /// Bundles the parts of a document.
    pub fn new(content: Vec<u8>, warc_headers: WarcHeaders, metadata: Metadata) -> (r: Document)
        ensures
            r.content == content,
            r.warc_headers == warc_headers,
            r.metadata == metadata,
    {
        Document { content, warc_headers, metadata }
    }

    /// The document's identification.
    pub fn identification(&self) -> (r: &Identification)
        ensures
            r == &self.metadata.identification,
    {
        &self.metadata.identification
    }

    /// The content bytes.
    pub fn content(&self) -> (r: &Vec<u8>)
        ensures
            r == &self.content,
    {
        &self.content
    }

    /// The document's headers.
    pub fn warc_headers(&self) -> (r: &WarcHeaders)
        ensures
            r == &self.warc_headers,
    {
        &self.warc_headers
    }

    /// The document's metadata.
    pub fn metadata(&self) -> (r: &Metadata)
        ensures
            r == &self.metadata,
    {
        &self.metadata
    }

    /// Replaces the content.
    pub fn set_content(&mut self, content: Vec<u8>)
        ensures
            final(self).content == content,
            final(self).warc_headers == old(self).warc_headers,
            final(self).metadata == old(self).metadata,
    {
        self.content = content;
    }
}

} // verus!
