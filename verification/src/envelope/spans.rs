//! The response envelope of the spans endpoint.
//!
//! The root table of the response holds the vector of its documents in
//! slot 0 and the table of highlight names in slot 1. The table of a
//! document is laid out as in a markup response, with the vector of the
//! document's spans in slot 3. The table of a span holds the index of its
//! highlight name in slot 0 and the first and the past-the-end byte of the
//! span in slots 1 and 2.

use vstd::prelude::*;
use vstd::utf8::encode_utf8;
use crate::envelope::html::{
    DOCUMENT_ERROR_CODE, DOCUMENT_FILENAME, DOCUMENT_IDENT, DOCUMENT_LANGUAGE, DOCUMENT_PAYLOAD,
    RESPONSE_DOCUMENTS,
};
use crate::envelope::read::{
    ref_field, spec_ref_field, spec_table_at, spec_target, spec_u16_field, spec_u64_field,
    spec_u8_field, spec_vector_at, table_at, target, u16_field, u64_field, u8_field, vector_at,
    ByteRange, Table, MAX_ENVELOPE_SIZE,
};
use crate::envelope::shift::{
    extends, lemma_extends_trans, lemma_shift_ref_field, lemma_shift_table, lemma_shift_target,
    lemma_shift_u16_field, lemma_shift_u64_field, lemma_shift_u8_field, lemma_shift_vector,
    moved_range, moved_table,
};
use crate::envelope::text::{
    lemma_shift_text, lemma_shift_text_field, lemma_shift_texts_at, lemma_shift_texts_field,
    lemma_texts_size_grows, put_text, put_texts, spec_text_at, spec_text_field, spec_texts_at,
    spec_texts_field, text_field, text_views, texts_field, texts_size,
};
use crate::envelope::write::{cell_holds, offsets_size, string_size, table_size, Cell, Writer};

verus! {

pub const RESPONSE_HIGHLIGHT_NAMES: usize = 1;

pub const SPAN_INDEX: usize = 0;

pub const SPAN_START: usize = 1;

pub const SPAN_END: usize = 2;

/// One highlighted run of a file: the bytes from `start` up to `end` bear
/// the highlight name of number `index`.
#[derive(Clone, Copy, Debug, PartialEq, Eq, Structural)]
pub struct SpanEntry {
    pub index: u16,
    pub start: u64,
    pub end: u64,
}

/// One document of a spans response.
#[derive(Debug)]
pub struct SpansDocument {
    /// The correlation number of the file that the document answers.
    pub ident: u16,
    pub filename: String,
    /// The number of the language in which the file was read.
    pub language: u8,
    /// The spans in the order in which they were met; `None` where the
    /// document reports a failure.
    pub spans: Option<Vec<SpanEntry>>,
    /// The number of the error code.
    pub error_code: u8,
}

/// What a [`SpansDocument`] holds.
pub struct SpansDocumentView {
    pub ident: u16,
    pub filename: Seq<char>,
    pub language: u8,
    pub spans: Option<Seq<SpanEntry>>,
    pub error_code: u8,
}

impl View for SpansDocument {
    type V = SpansDocumentView;

    open spec fn view(&self) -> SpansDocumentView {
        SpansDocumentView {
            ident: self.ident,
            filename: self.filename@,
            language: self.language,
            spans: match self.spans {
                Some(spans) => Some(spans@),
                None => None,
            },
            error_code: self.error_code,
        }
    }
}

/// A spans response.
#[derive(Debug)]
pub struct SpansResponse {
    pub documents: Vec<SpansDocument>,
    /// The highlight names by their numbers.
    pub highlight_names: Vec<String>,
}

/// What a [`SpansResponse`] holds.
pub struct SpansResponseView {
    pub documents: Seq<SpansDocumentView>,
    pub highlight_names: Seq<Seq<char>>,
}

/// Whatever can be written as a document of a spans response.
pub trait SpansSource {
    /// The document that is written.
    spec fn document(&self) -> SpansDocumentView;

    /// Writes the document: its file name, its spans if it has any, then
    /// its table. `at` is the distance from the end of the buffer at which
    /// the table then starts; the answer is `None` where the envelope
    /// would pass its limit.
    fn put_document(&self, w: &mut Writer) -> (at: Option<usize>)
        requires
            old(w).wf(),
        ensures
            match at {
                Some(d) => {
                    &&& final(w).wf()
                    &&& extends(final(w)@, old(w)@)
                    &&& final(w)@.len() == old(w)@.len() + spans_document_size(self.document())
                    &&& d <= final(w)@.len()
                    &&& spec_spans_document_at(final(w)@, final(w)@.len() - d) == Some(
                        self.document(),
                    )
                },
                None => old(w)@.len() + spans_document_size(self.document()) > MAX_ENVELOPE_SIZE,
            },
    ;
}

/// The documents of a sequence of sources, one for one.
pub open spec fn spans_views<S: SpansSource>(documents: Seq<S>) -> Seq<SpansDocumentView> {
    Seq::new(documents.len(), |i: int| documents[i].document())
}

impl SpansSource for SpansDocument {
    open spec fn document(&self) -> SpansDocumentView {
        self@
    }

    fn put_document(&self, w: &mut Writer) -> (at: Option<usize>) {
        put_spans_document(
            w,
            self.ident,
            self.filename.as_str(),
            self.language,
            self.spans.as_ref(),
            self.error_code,
        )
    }
}

impl View for SpansResponse {
    type V = SpansResponseView;

    open spec fn view(&self) -> SpansResponseView {
        SpansResponseView {
            documents: spans_views(self.documents@),
            highlight_names: text_views(self.highlight_names@),
        }
    }
}

/// The span whose table starts at `pos`.
#[verifier::opaque]
pub open spec fn spec_span_at(b: Seq<u8>, pos: int) -> Option<SpanEntry> {
    match spec_table_at(b, pos) {
        None => None,
        Some(t) => match (
            spec_u16_field(b, t, SPAN_INDEX as int, 0),
            spec_u64_field(b, t, SPAN_START as int, 0),
            spec_u64_field(b, t, SPAN_END as int, 0),
        ) {
            (Some(index), Some(start), Some(end)) => Some(SpanEntry { index, start, end }),
            _ => None,
        },
    }
}

/// The span that element `i` of a vector of spans refers to.
pub open spec fn spec_span_element(b: Seq<u8>, elements: ByteRange, i: int) -> Option<SpanEntry> {
    match spec_target(b, elements.start + 4 * i) {
        None => None,
        Some(pos) => spec_span_at(b, pos),
    }
}

/// The spans that a vector refers to, in its order.
pub open spec fn spec_spans(b: Seq<u8>, elements: ByteRange) -> Option<Seq<SpanEntry>> {
    if forall|i: int|
        0 <= i < elements.len ==> (#[trigger] spec_span_element(b, elements, i)) is Some {
        Some(Seq::new(elements.len as nat, |i: int| spec_span_element(b, elements, i).unwrap()))
    } else {
        None
    }
}

/// The vector of spans that starts at `pos`.
pub open spec fn spec_spans_at(b: Seq<u8>, pos: int) -> Option<Seq<SpanEntry>> {
    match spec_vector_at(b, pos, 4) {
        None => None,
        Some(elements) => spec_spans(b, elements),
    }
}

/// The spans of a field that holds a vector of spans.
pub open spec fn spec_spans_field(b: Seq<u8>, t: Table, slot: int) -> Option<
    Option<Seq<SpanEntry>>,
> {
    match spec_ref_field(b, t, slot) {
        None => None,
        Some(None) => Some(None),
        Some(Some(target)) => match spec_spans_at(b, target) {
            None => None,
            Some(spans) => Some(Some(spans)),
        },
    }
}

/// The document whose table starts at `pos`.
#[verifier::opaque]
pub open spec fn spec_spans_document_at(b: Seq<u8>, pos: int) -> Option<SpansDocumentView> {
    match spec_table_at(b, pos) {
        None => None,
        Some(t) => match (
            spec_u16_field(b, t, DOCUMENT_IDENT as int, 0),
            spec_text_field(b, t, DOCUMENT_FILENAME as int),
            spec_u8_field(b, t, DOCUMENT_LANGUAGE as int, 0),
            spec_spans_field(b, t, DOCUMENT_PAYLOAD as int),
            spec_u8_field(b, t, DOCUMENT_ERROR_CODE as int, 0),
        ) {
            (Some(ident), Some(filename), Some(language), Some(spans), Some(error_code)) => Some(
                SpansDocumentView {
                    ident,
                    filename: match filename {
                        Some(text) => text,
                        None => Seq::empty(),
                    },
                    language,
                    spans,
                    error_code,
                },
            ),
            _ => None,
        },
    }
}

/// The document that element `i` of a vector of documents refers to.
pub open spec fn spec_spans_element(b: Seq<u8>, elements: ByteRange, i: int) -> Option<
    SpansDocumentView,
> {
    match spec_target(b, elements.start + 4 * i) {
        None => None,
        Some(pos) => spec_spans_document_at(b, pos),
    }
}

/// The documents that a vector refers to, in its order.
pub open spec fn spec_spans_documents(b: Seq<u8>, elements: ByteRange) -> Option<
    Seq<SpansDocumentView>,
> {
    if forall|i: int|
        0 <= i < elements.len ==> (#[trigger] spec_spans_element(b, elements, i)) is Some {
        Some(Seq::new(elements.len as nat, |i: int| spec_spans_element(b, elements, i).unwrap()))
    } else {
        None
    }
}

/// The vector of documents that starts at `pos`.
pub open spec fn spec_spans_documents_at(b: Seq<u8>, pos: int) -> Option<Seq<SpansDocumentView>> {
    match spec_vector_at(b, pos, 4) {
        None => None,
        Some(elements) => spec_spans_documents(b, elements),
    }
}

/// The response whose root table starts at `pos`; a response without one
/// of its vectors has that vector empty.
pub open spec fn spec_spans_root_at(b: Seq<u8>, pos: int) -> Option<SpansResponseView> {
    match spec_table_at(b, pos) {
        None => None,
        Some(t) => match (
            spec_ref_field(b, t, RESPONSE_DOCUMENTS as int),
            spec_texts_field(b, t, RESPONSE_HIGHLIGHT_NAMES as int),
        ) {
            (Some(at), Some(names)) => {
                let highlight_names = match names {
                    Some(names) => names,
                    None => Seq::empty(),
                };
                match at {
                    None => Some(SpansResponseView { documents: Seq::empty(), highlight_names }),
                    Some(target) => match spec_spans_documents_at(b, target) {
                        None => None,
                        Some(documents) => Some(SpansResponseView { documents, highlight_names }),
                    },
                }
            },
            _ => None,
        },
    }
}

/// What the bytes of a spans response mean, or `None` where the bytes are
/// no well-formed response.
pub open spec fn spec_spans_response(b: Seq<u8>) -> Option<SpansResponseView> {
    if b.len() > MAX_ENVELOPE_SIZE {
        None
    } else {
        match spec_target(b, 0) {
            None => None,
            Some(root) => spec_spans_root_at(b, root),
        }
    }
}

/// The bytes that the table of a span takes.
pub const SPAN_SIZE: usize = 48;

/// The bytes that a vector of `n` spans takes: the tables of its spans,
/// then the block of its offsets.
pub open spec fn spans_size(n: int) -> int {
    SPAN_SIZE * n + offsets_size(n)
}

/// The bytes that a document takes in an envelope.
pub open spec fn spans_document_size(d: SpansDocumentView) -> int {
    string_size(encode_utf8(d.filename).len() as int) + (match d.spans {
        Some(spans) => spans_size(spans.len() as int),
        None => 0,
    }) + table_size(5)
}

/// The bytes that the first `n` documents take.
pub open spec fn spans_documents_size_upto(documents: Seq<SpansDocumentView>, n: int) -> int
    decreases n,
{
    if n <= 0 {
        0
    } else {
        spans_documents_size_upto(documents, n - 1) + spans_document_size(documents[n - 1])
    }
}

/// The length of the envelope of a response.
pub open spec fn spans_response_size(r: SpansResponseView) -> int {
    spans_documents_size_upto(r.documents, r.documents.len() as int) + offsets_size(
        r.documents.len() as int,
    ) + texts_size(r.highlight_names) + table_size(2) + 8
}

pub proof fn lemma_spans_documents_size_grows(documents: Seq<SpansDocumentView>, i: int, n: int)
    requires
        0 <= i <= n,
    ensures
        0 <= spans_documents_size_upto(documents, i) <= spans_documents_size_upto(documents, n),
    decreases n,
{
    if n > 0 {
        if i < n {
            lemma_spans_documents_size_grows(documents, i, n - 1);
        } else {
            lemma_spans_documents_size_grows(documents, i - 1, n - 1);
        }
    }
}

pub proof fn lemma_shift_span(new: Seq<u8>, old: Seq<u8>, pos: int)
    requires
        extends(new, old),
        new.len() <= usize::MAX,
        spec_span_at(old, pos) is Some,
    ensures
        spec_span_at(new, pos + (new.len() - old.len())) == spec_span_at(old, pos),
{
    reveal(spec_span_at);
    lemma_shift_table(new, old, pos);
    let t = spec_table_at(old, pos).unwrap();
    lemma_shift_u16_field(new, old, t, SPAN_INDEX as int, 0);
    lemma_shift_u64_field(new, old, t, SPAN_START as int, 0);
    lemma_shift_u64_field(new, old, t, SPAN_END as int, 0);
}

pub proof fn lemma_shift_spans_at(new: Seq<u8>, old: Seq<u8>, pos: int)
    requires
        extends(new, old),
        new.len() <= usize::MAX,
        spec_spans_at(old, pos) is Some,
    ensures
        spec_spans_at(new, pos + (new.len() - old.len())) == spec_spans_at(old, pos),
{
    let k = new.len() - old.len();
    lemma_shift_vector(new, old, pos, 4);
    let elements = spec_vector_at(old, pos, 4).unwrap();
    let moved = moved_range(elements, k);
    assert forall|i: int| 0 <= i < elements.len implies #[trigger] spec_span_element(new, moved, i)
        == spec_span_element(old, elements, i) by {
        assert(spec_span_element(old, elements, i) is Some);
        lemma_shift_target(new, old, elements.start + 4 * i);
        lemma_shift_span(new, old, spec_target(old, elements.start + 4 * i).unwrap());
    }
    assert(spec_spans(new, moved).unwrap() =~= spec_spans(old, elements).unwrap());
}

pub proof fn lemma_shift_spans_field(new: Seq<u8>, old: Seq<u8>, t: Table, slot: int)
    requires
        extends(new, old),
        new.len() <= usize::MAX,
        spec_spans_field(old, t, slot) is Some,
        0 <= slot,
        t.pos <= old.len(),
        t.vtable + t.vtable_len <= old.len(),
    ensures
        spec_spans_field(new, moved_table(t, new.len() - old.len()), slot) == spec_spans_field(
            old,
            t,
            slot,
        ),
{
    lemma_shift_ref_field(new, old, t, slot);
    match spec_ref_field(old, t, slot).unwrap() {
        None => {},
        Some(target) => {
            lemma_shift_spans_at(new, old, target);
        },
    }
}

pub proof fn lemma_shift_spans_document(new: Seq<u8>, old: Seq<u8>, pos: int)
    requires
        extends(new, old),
        new.len() <= usize::MAX,
        spec_spans_document_at(old, pos) is Some,
    ensures
        spec_spans_document_at(new, pos + (new.len() - old.len())) == spec_spans_document_at(
            old,
            pos,
        ),
{
    reveal(spec_spans_document_at);
    lemma_shift_table(new, old, pos);
    let t = spec_table_at(old, pos).unwrap();
    lemma_shift_u16_field(new, old, t, DOCUMENT_IDENT as int, 0);
    lemma_shift_text_field(new, old, t, DOCUMENT_FILENAME as int);
    lemma_shift_u8_field(new, old, t, DOCUMENT_LANGUAGE as int, 0);
    lemma_shift_spans_field(new, old, t, DOCUMENT_PAYLOAD as int);
    lemma_shift_u8_field(new, old, t, DOCUMENT_ERROR_CODE as int, 0);
}

pub proof fn lemma_shift_spans_documents_at(new: Seq<u8>, old: Seq<u8>, pos: int)
    requires
        extends(new, old),
        new.len() <= usize::MAX,
        spec_spans_documents_at(old, pos) is Some,
    ensures
        spec_spans_documents_at(new, pos + (new.len() - old.len())) == spec_spans_documents_at(
            old,
            pos,
        ),
{
    let k = new.len() - old.len();
    lemma_shift_vector(new, old, pos, 4);
    let elements = spec_vector_at(old, pos, 4).unwrap();
    let moved = moved_range(elements, k);
    assert forall|i: int| 0 <= i < elements.len implies #[trigger] spec_spans_element(new, moved, i)
        == spec_spans_element(old, elements, i) by {
        assert(spec_spans_element(old, elements, i) is Some);
        lemma_shift_target(new, old, elements.start + 4 * i);
        lemma_shift_spans_document(new, old, spec_target(old, elements.start + 4 * i).unwrap());
    }
    assert(spec_spans_documents(new, moved).unwrap() =~= spec_spans_documents(
        old,
        elements,
    ).unwrap());
}

pub proof fn lemma_shift_spans_root(new: Seq<u8>, old: Seq<u8>, pos: int)
    requires
        extends(new, old),
        new.len() <= usize::MAX,
        spec_spans_root_at(old, pos) is Some,
    ensures
        spec_spans_root_at(new, pos + (new.len() - old.len())) == spec_spans_root_at(old, pos),
{
    lemma_shift_table(new, old, pos);
    let t = spec_table_at(old, pos).unwrap();
    lemma_shift_ref_field(new, old, t, RESPONSE_DOCUMENTS as int);
    lemma_shift_texts_field(new, old, t, RESPONSE_HIGHLIGHT_NAMES as int);
    match spec_ref_field(old, t, RESPONSE_DOCUMENTS as int).unwrap() {
        None => {},
        Some(target) => {
            lemma_shift_spans_documents_at(new, old, target);
        },
    }
}

fn span_at(b: &[u8], pos: u64) -> (span: Option<SpanEntry>)
    requires
        b.len() <= MAX_ENVELOPE_SIZE,
    ensures
        span == spec_span_at(b@, pos as int),
{
    reveal(spec_span_at);
    if pos > b.len() as u64 {
        return None;
    }
    let t = match table_at(b, pos as usize) {
        None => { return None; },
        Some(t) => t,
    };
    let index = match u16_field(b, t, SPAN_INDEX, 0) {
        None => { return None; },
        Some(v) => v,
    };
    let start = match u64_field(b, t, SPAN_START, 0) {
        None => { return None; },
        Some(v) => v,
    };
    let end = match u64_field(b, t, SPAN_END, 0) {
        None => { return None; },
        Some(v) => v,
    };
    Some(SpanEntry { index, start, end })
}

fn span_element(b: &[u8], elements: ByteRange, i: usize) -> (span: Option<SpanEntry>)
    requires
        b.len() <= MAX_ENVELOPE_SIZE,
        elements.start + 4 * elements.len <= b.len(),
        i < elements.len,
    ensures
        span == spec_span_element(b@, elements, i as int),
{
    match target(b, elements.start + 4 * i) {
        None => None,
        Some(pos) => span_at(b, pos),
    }
}

fn spans_at(b: &[u8], pos: u64) -> (spans: Option<Vec<SpanEntry>>)
    requires
        b.len() <= MAX_ENVELOPE_SIZE,
    ensures
        spec_spans_at(b@, pos as int) == match spans {
            None => None::<Seq<SpanEntry>>,
            Some(v) => Some(v@),
        },
{
    let elements = match vector_at(b, pos, 4) {
        None => { return None; },
        Some(elements) => elements,
    };
    let mut spans: Vec<SpanEntry> = Vec::new();
    let mut i: usize = 0;
    while i < elements.len
        invariant
            b.len() <= MAX_ENVELOPE_SIZE,
            elements.start + 4 * elements.len <= b.len(),
            i <= elements.len,
            spans.len() == i,
            spec_vector_at(b@, pos as int, 4) == Some(elements),
            forall|k: int|
                0 <= k < i ==> (#[trigger] spec_span_element(b@, elements, k)) == Some(spans@[k]),
        decreases elements.len - i,
    {
        match span_element(b, elements, i) {
            None => {
                assert(spec_span_element(b@, elements, i as int) is None);
                return None;
            },
            Some(span) => {
                spans.push(span);
            },
        }
        i += 1;
    }
    assert(spans@ =~= Seq::new(
        elements.len as nat,
        |i: int| spec_span_element(b@, elements, i).unwrap(),
    ));
    Some(spans)
}

fn spans_field(b: &[u8], t: Table, slot: usize) -> (spans: Option<Option<Vec<SpanEntry>>>)
    requires
        b.len() <= MAX_ENVELOPE_SIZE,
        t.pos <= b.len(),
        t.vtable + t.vtable_len <= b.len(),
        slot < 0x1000,
    ensures
        spec_spans_field(b@, t, slot as int) == match spans {
            None => None::<Option<Seq<SpanEntry>>>,
            Some(None) => Some(None),
            Some(Some(v)) => Some(Some(v@)),
        },
{
    match ref_field(b, t, slot) {
        None => None,
        Some(None) => Some(None),
        Some(Some(at)) => match spans_at(b, at) {
            None => None,
            Some(spans) => Some(Some(spans)),
        },
    }
}

fn spans_document_at(b: &[u8], pos: u64) -> (document: Option<SpansDocument>)
    requires
        b.len() <= MAX_ENVELOPE_SIZE,
    ensures
        spec_spans_document_at(b@, pos as int) == match document {
            None => None::<SpansDocumentView>,
            Some(d) => Some(d@),
        },
{
    reveal(spec_spans_document_at);
    if pos > b.len() as u64 {
        return None;
    }
    let t = match table_at(b, pos as usize) {
        None => { return None; },
        Some(t) => t,
    };
    let ident = match u16_field(b, t, DOCUMENT_IDENT, 0) {
        None => { return None; },
        Some(v) => v,
    };
    let filename = match text_field(b, t, DOCUMENT_FILENAME) {
        None => { return None; },
        Some(None) => String::new(),
        Some(Some(text)) => text,
    };
    let language = match u8_field(b, t, DOCUMENT_LANGUAGE, 0) {
        None => { return None; },
        Some(v) => v,
    };
    let spans = match spans_field(b, t, DOCUMENT_PAYLOAD) {
        None => { return None; },
        Some(v) => v,
    };
    let error_code = match u8_field(b, t, DOCUMENT_ERROR_CODE, 0) {
        None => { return None; },
        Some(v) => v,
    };
    Some(SpansDocument { ident, filename, language, spans, error_code })
}

fn spans_element(b: &[u8], elements: ByteRange, i: usize) -> (document: Option<SpansDocument>)
    requires
        b.len() <= MAX_ENVELOPE_SIZE,
        elements.start + 4 * elements.len <= b.len(),
        i < elements.len,
    ensures
        spec_spans_element(b@, elements, i as int) == match document {
            None => None::<SpansDocumentView>,
            Some(d) => Some(d@),
        },
{
    match target(b, elements.start + 4 * i) {
        None => None,
        Some(pos) => spans_document_at(b, pos),
    }
}

fn spans_documents_at(b: &[u8], pos: u64) -> (documents: Option<Vec<SpansDocument>>)
    requires
        b.len() <= MAX_ENVELOPE_SIZE,
    ensures
        spec_spans_documents_at(b@, pos as int) == match documents {
            None => None::<Seq<SpansDocumentView>>,
            Some(v) => Some(spans_views(v@)),
        },
{
    let elements = match vector_at(b, pos, 4) {
        None => { return None; },
        Some(elements) => elements,
    };
    let mut documents: Vec<SpansDocument> = Vec::new();
    let mut i: usize = 0;
    while i < elements.len
        invariant
            b.len() <= MAX_ENVELOPE_SIZE,
            elements.start + 4 * elements.len <= b.len(),
            i <= elements.len,
            documents.len() == i,
            spec_vector_at(b@, pos as int, 4) == Some(elements),
            forall|k: int|
                0 <= k < i ==> (#[trigger] spec_spans_element(b@, elements, k)) == Some(
                    documents@[k]@,
                ),
        decreases elements.len - i,
    {
        match spans_element(b, elements, i) {
            None => {
                assert(spec_spans_element(b@, elements, i as int) is None);
                return None;
            },
            Some(document) => {
                documents.push(document);
            },
        }
        i += 1;
    }
    assert(spans_views(documents@) =~= Seq::new(
        elements.len as nat,
        |i: int| spec_spans_element(b@, elements, i).unwrap(),
    ));
    Some(documents)
}

/// Decodes a spans response. The answer is `None` exactly where the bytes
/// are no well-formed response; otherwise it is what the bytes mean.
pub fn decode_spans_response(body: &[u8]) -> (response: Option<SpansResponse>)
    ensures
        spec_spans_response(body@) == match response {
            None => None::<SpansResponseView>,
            Some(r) => Some(r@),
        },
{
    if body.len() > MAX_ENVELOPE_SIZE {
        return None;
    }
    let root = match target(body, 0) {
        None => { return None; },
        Some(root) => root,
    };
    if root > body.len() as u64 {
        return None;
    }
    let t = match table_at(body, root as usize) {
        None => { return None; },
        Some(t) => t,
    };
    let at = match ref_field(body, t, RESPONSE_DOCUMENTS) {
        None => { return None; },
        Some(at) => at,
    };
    let highlight_names = match texts_field(body, t, RESPONSE_HIGHLIGHT_NAMES) {
        None => { return None; },
        Some(None) => Vec::new(),
        Some(Some(names)) => names,
    };
    let documents = match at {
        None => Vec::new(),
        Some(at) => match spans_documents_at(body, at) {
            None => { return None; },
            Some(documents) => documents,
        },
    };
    assert(spans_views::<SpansDocument>(Seq::<SpansDocument>::empty()) =~= Seq::<
        SpansDocumentView,
    >::empty());
    assert(text_views(Seq::<String>::empty()) =~= Seq::<Seq<char>>::empty());
    Some(SpansResponse { documents, highlight_names })
}

/// A table whose cells hold the parts of a span is that span.
proof fn lemma_span_assembled(b: Seq<u8>, pos: int, cells: Seq<Cell>, span: SpanEntry)
    requires
        b.len() <= MAX_ENVELOPE_SIZE,
        spec_table_at(b, pos) is Some,
        cells.len() == 3,
        cells[0] == Cell::Short(span.index),
        cells[1] == Cell::Long(span.start),
        cells[2] == Cell::Long(span.end),
        forall|k: int|
            0 <= k < 3 ==> #[trigger] cell_holds(b, spec_table_at(b, pos).unwrap(), k, cells[k]),
    ensures
        spec_span_at(b, pos) == Some(span),
{
    reveal(spec_span_at);
    let t = spec_table_at(b, pos).unwrap();
    assert(cell_holds(b, t, 0, cells[0]));
    assert(cell_holds(b, t, 1, cells[1]));
    assert(cell_holds(b, t, 2, cells[2]));
}

/// Writes the table of a span.
fn put_span(w: &mut Writer, span: &SpanEntry) -> (at: Option<usize>)
    requires
        old(w).wf(),
    ensures
        match at {
            Some(d) => {
                &&& final(w).wf()
                &&& extends(final(w)@, old(w)@)
                &&& final(w)@.len() == old(w)@.len() + SPAN_SIZE
                &&& d <= final(w)@.len()
                &&& spec_span_at(final(w)@, final(w)@.len() - d) == Some(*span)
            },
            None => old(w)@.len() + SPAN_SIZE > MAX_ENVELOPE_SIZE,
        },
{
    assert(table_size(3) == SPAN_SIZE);
    let mut cells: Vec<Cell> = Vec::new();
    cells.push(Cell::Short(span.index));
    cells.push(Cell::Long(span.start));
    cells.push(Cell::Long(span.end));
    match w.put_table(&cells) {
        None => None,
        Some(d) => {
            proof {
                lemma_span_assembled(w@, w@.len() - d, cells@, *span);
            }
            Some(d)
        },
    }
}

/// A vector whose offsets point to the spans is the vector of the spans.
proof fn lemma_spans_assembled(b: Seq<u8>, old: Seq<u8>, places: Seq<usize>, spans: Seq<SpanEntry>)
    requires
        extends(b, old),
        b.len() <= MAX_ENVELOPE_SIZE,
        places.len() == spans.len(),
        places.len() <= MAX_ENVELOPE_SIZE,
        spec_vector_at(b, 0, 4) == Some(ByteRange { start: 4, len: places.len() as usize }),
        forall|i: int|
            0 <= i < places.len() ==> #[trigger] spec_target(b, 4 + 4 * i) == Some(
                b.len() - places[i],
            ),
        forall|k: int|
            0 <= k < places.len() ==> spec_span_at(old, old.len() - #[trigger] places[k]) == Some(
                spans[k],
            ),
    ensures
        spec_spans_at(b, 0) == Some(spans),
{
    let elements = ByteRange { start: 4, len: places.len() as usize };
    assert forall|k: int| 0 <= k < elements.len implies #[trigger] spec_span_element(
        b,
        elements,
        k,
    ) == Some(spans[k]) by {
        assert(spec_target(b, 4 + 4 * k) == Some(b.len() - places[k]));
        lemma_shift_span(b, old, old.len() - places[k]);
    }
    assert(spec_spans(b, elements).unwrap() =~= spans);
}

/// Writes a vector of spans: first the table of each span, then the vector
/// of their offsets.
fn put_spans(w: &mut Writer, spans: &Vec<SpanEntry>) -> (at: Option<usize>)
    requires
        old(w).wf(),
    ensures
        match at {
            Some(d) => {
                &&& final(w).wf()
                &&& extends(final(w)@, old(w)@)
                &&& final(w)@.len() == old(w)@.len() + spans_size(spans@.len() as int)
                &&& d == final(w)@.len()
                &&& spec_spans_at(final(w)@, final(w)@.len() - d) == Some(spans@)
            },
            None => old(w)@.len() + spans_size(spans@.len() as int) > MAX_ENVELOPE_SIZE,
        },
{
    let ghost start = w@;
    let mut places: Vec<usize> = Vec::new();
    let mut i: usize = 0;
    while i < spans.len()
        invariant
            start == old(w)@,
            w.wf(),
            extends(w@, start),
            i <= spans.len(),
            places.len() == i,
            w@.len() == start.len() + SPAN_SIZE * i,
            forall|k: int| 0 <= k < i ==> #[trigger] places@[k] <= w@.len(),
            forall|k: int|
                0 <= k < i ==> spec_span_at(w@, w@.len() - #[trigger] places@[k]) == Some(
                    spans@[k],
                ),
        decreases spans.len() - i,
    {
        let ghost was = w@;
        match put_span(w, &spans[i]) {
            None => {
                return None;
            },
            Some(d) => {
                proof {
                    lemma_extends_trans(w@, was, start);
                    assert forall|k: int| 0 <= k < i implies spec_span_at(
                        w@,
                        w@.len() - #[trigger] places@[k],
                    ) == Some(spans@[k]) by {
                        lemma_shift_span(w@, was, was.len() - places@[k]);
                    }
                }
                places.push(d);
            },
        }
        i += 1;
    }
    let ghost listed = w@;
    match w.put_offsets(&places) {
        None => None,
        Some(d) => {
            proof {
                lemma_extends_trans(w@, listed, start);
                lemma_spans_assembled(w@, listed, places@, spans@);
            }
            Some(d)
        },
    }
}

/// A table whose cells hold the parts of a document is that document.
proof fn lemma_spans_document_assembled(
    b: Seq<u8>,
    pos: int,
    cells: Seq<Cell>,
    name_at: usize,
    view: SpansDocumentView,
)
    requires
        b.len() <= MAX_ENVELOPE_SIZE,
        spec_table_at(b, pos) is Some,
        cells.len() == 5,
        cells[0] == Cell::Short(view.ident),
        cells[1] == Cell::Ref(name_at),
        cells[2] == Cell::Byte(view.language),
        cells[3] is Absent || cells[3] is Ref,
        cells[4] == Cell::Byte(view.error_code),
        forall|k: int|
            0 <= k < 5 ==> #[trigger] cell_holds(b, spec_table_at(b, pos).unwrap(), k, cells[k]),
        spec_text_at(b, b.len() - name_at) == Some(view.filename),
        cells[3] is Absent ==> view.spans is None,
        cells[3] matches Cell::Ref(d) ==> view.spans is Some && spec_spans_at(b, b.len() - d)
            == view.spans,
    ensures
        spec_spans_document_at(b, pos) == Some(view),
{
    reveal(spec_spans_document_at);
    let t = spec_table_at(b, pos).unwrap();
    assert(cell_holds(b, t, 0, cells[0]));
    assert(cell_holds(b, t, 1, cells[1]));
    assert(cell_holds(b, t, 2, cells[2]));
    assert(cell_holds(b, t, 3, cells[3]));
    assert(cell_holds(b, t, 4, cells[4]));
}

/// Writes a document from its parts: its file name, its spans if it has
/// any, then its table. `at` is the distance from the end of the buffer at
/// which the table then starts.
pub fn put_spans_document(
    w: &mut Writer,
    ident: u16,
    filename: &str,
    language: u8,
    spans: Option<&Vec<SpanEntry>>,
    error_code: u8,
) -> (at: Option<usize>)
    requires
        old(w).wf(),
    ensures
        ({
            let view = SpansDocumentView {
                ident,
                filename: filename@,
                language,
                spans: match spans {
                    Some(spans) => Some(spans@),
                    None => None,
                },
                error_code,
            };
            match at {
                Some(d) => {
                    &&& final(w).wf()
                    &&& extends(final(w)@, old(w)@)
                    &&& final(w)@.len() == old(w)@.len() + spans_document_size(view)
                    &&& d <= final(w)@.len()
                    &&& spec_spans_document_at(final(w)@, final(w)@.len() - d) == Some(view)
                },
                None => old(w)@.len() + spans_document_size(view) > MAX_ENVELOPE_SIZE,
            }
        }),
{
    let ghost start = w@;
    let ghost view = SpansDocumentView {
        ident,
        filename: filename@,
        language,
        spans: match spans {
            Some(spans) => Some(spans@),
            None => None,
        },
        error_code,
    };
    let name_at = match put_text(w, filename) {
        None => { return None; },
        Some(d) => d,
    };
    let ghost named = w@;
    let payload = match spans {
        None => Cell::Absent,
        Some(spans) => match put_spans(w, spans) {
            None => { return None; },
            Some(d) => Cell::Ref(d),
        },
    };
    let ghost filled = w@;
    proof {
        lemma_extends_trans(filled, named, start);
    }
    let mut cells: Vec<Cell> = Vec::new();
    cells.push(Cell::Short(ident));
    cells.push(Cell::Ref(name_at));
    cells.push(Cell::Byte(language));
    cells.push(payload);
    cells.push(Cell::Byte(error_code));
    let at = match w.put_table(&cells) {
        None => { return None; },
        Some(d) => d,
    };
    proof {
        let b = w@;
        lemma_extends_trans(b, filled, named);
        lemma_extends_trans(b, filled, start);
        lemma_shift_text(b, named, named.len() - name_at);
        if let Cell::Ref(spans_at) = payload {
            lemma_shift_spans_at(b, filled, filled.len() - spans_at);
        }
        lemma_spans_document_assembled(b, b.len() - at, cells@, name_at, view);
    }
    Some(at)
}

/// A vector whose offsets point to the documents is the vector of the
/// documents.
proof fn lemma_spans_documents_assembled(
    b: Seq<u8>,
    old: Seq<u8>,
    places: Seq<usize>,
    views: Seq<SpansDocumentView>,
)
    requires
        extends(b, old),
        b.len() <= MAX_ENVELOPE_SIZE,
        places.len() == views.len(),
        places.len() <= MAX_ENVELOPE_SIZE,
        spec_vector_at(b, 0, 4) == Some(ByteRange { start: 4, len: places.len() as usize }),
        forall|i: int|
            0 <= i < places.len() ==> #[trigger] spec_target(b, 4 + 4 * i) == Some(
                b.len() - places[i],
            ),
        forall|k: int|
            0 <= k < places.len() ==> spec_spans_document_at(old, old.len() - #[trigger] places[k])
                == Some(views[k]),
    ensures
        spec_spans_documents_at(b, 0) == Some(views),
{
    let elements = ByteRange { start: 4, len: places.len() as usize };
    assert forall|k: int| 0 <= k < elements.len implies #[trigger] spec_spans_element(
        b,
        elements,
        k,
    ) == Some(views[k]) by {
        assert(spec_target(b, 4 + 4 * k) == Some(b.len() - places[k]));
        lemma_shift_spans_document(b, old, old.len() - places[k]);
    }
    assert(spec_spans_documents(b, elements).unwrap() =~= views);
}

/// Writes the documents, then the vector of their offsets.
fn put_spans_documents<S: SpansSource>(w: &mut Writer, documents: &Vec<S>) -> (at: Option<usize>)
    requires
        old(w).wf(),
        old(w)@.len() == 0,
    ensures
        match at {
            Some(d) => {
                &&& final(w).wf()
                &&& final(w)@.len() == spans_documents_size_upto(
                    spans_views(documents@),
                    documents@.len() as int,
                ) + offsets_size(documents@.len() as int)
                &&& d == final(w)@.len()
                &&& spec_spans_documents_at(final(w)@, final(w)@.len() - d) == Some(
                    spans_views(documents@),
                )
            },
            None => spans_documents_size_upto(spans_views(documents@), documents@.len() as int)
                + offsets_size(documents@.len() as int) > MAX_ENVELOPE_SIZE,
        },
{
    let ghost views = spans_views(documents@);
    let mut places: Vec<usize> = Vec::new();
    let mut i: usize = 0;
    while i < documents.len()
        invariant
            views == spans_views(documents@),
            w.wf(),
            i <= documents.len(),
            places.len() == i,
            w@.len() == spans_documents_size_upto(views, i as int),
            forall|k: int| 0 <= k < i ==> #[trigger] places@[k] <= w@.len(),
            forall|k: int|
                0 <= k < i ==> spec_spans_document_at(w@, w@.len() - #[trigger] places@[k])
                    == Some(views[k]),
        decreases documents.len() - i,
    {
        let ghost was = w@;
        proof {
            lemma_spans_documents_size_grows(views, i as int + 1, documents.len() as int);
            assert(views[i as int] == documents@[i as int].document());
            assert(spans_documents_size_upto(views, i as int + 1) == spans_documents_size_upto(
                views,
                i as int,
            ) + spans_document_size(views[i as int]));
        }
        match documents[i].put_document(w) {
            None => {
                return None;
            },
            Some(d) => {
                proof {
                    assert forall|k: int| 0 <= k < i implies spec_spans_document_at(
                        w@,
                        w@.len() - #[trigger] places@[k],
                    ) == Some(views[k]) by {
                        lemma_shift_spans_document(w@, was, was.len() - places@[k]);
                    }
                }
                places.push(d);
            },
        }
        i += 1;
    }
    let ghost listed = w@;
    match w.put_offsets(&places) {
        None => None,
        Some(d) => {
            proof {
                lemma_spans_documents_assembled(w@, listed, places@, views);
            }
            Some(d)
        },
    }
}

/// A root table whose cells hold the two vectors of a response is the
/// response.
proof fn lemma_spans_root_assembled(
    b: Seq<u8>,
    pos: int,
    cells: Seq<Cell>,
    documents_at: usize,
    names_at: usize,
    view: SpansResponseView,
)
    requires
        b.len() <= MAX_ENVELOPE_SIZE,
        spec_table_at(b, pos) is Some,
        cells.len() == 2,
        cells[0] == Cell::Ref(documents_at),
        cells[1] == Cell::Ref(names_at),
        forall|k: int|
            0 <= k < 2 ==> #[trigger] cell_holds(b, spec_table_at(b, pos).unwrap(), k, cells[k]),
        spec_spans_documents_at(b, b.len() - documents_at) == Some(view.documents),
        spec_texts_at(b, b.len() - names_at) == Some(view.highlight_names),
    ensures
        spec_spans_root_at(b, pos) == Some(view),
{
    let t = spec_table_at(b, pos).unwrap();
    assert(cell_holds(b, t, 0, cells[0]));
    assert(cell_holds(b, t, 1, cells[1]));
}

/// What a response with these documents and highlight names holds.
pub open spec fn spans_response_view<S: SpansSource>(
    documents: Seq<S>,
    highlight_names: Seq<String>,
) -> SpansResponseView {
    SpansResponseView {
        documents: spans_views(documents),
        highlight_names: text_views(highlight_names),
    }
}

/// Encodes a spans response with these documents, in their order, and
/// these highlight names. The answer is `None` exactly where the envelope
/// would pass its limit; otherwise decoding the bytes gives the response
/// back.
pub fn encode_spans_response<S: SpansSource>(
    documents: &Vec<S>,
    highlight_names: &Vec<String>,
) -> (bytes: Option<Vec<u8>>)
    ensures
        match bytes {
            Some(b) => {
                &&& b@.len() == spans_response_size(
                    spans_response_view(documents@, highlight_names@),
                )
                &&& spec_spans_response(b@) == Some(
                    spans_response_view(documents@, highlight_names@),
                )
            },
            None => spans_response_size(spans_response_view(documents@, highlight_names@))
                > MAX_ENVELOPE_SIZE,
        },
{
    let ghost view = spans_response_view(documents@, highlight_names@);
    proof {
        lemma_texts_size_grows(view.highlight_names, 0, view.highlight_names.len() as int);
    }
    let mut w = Writer::new();
    let documents_at = match put_spans_documents(&mut w, documents) {
        None => { return None; },
        Some(d) => d,
    };
    let ghost indexed = w@;
    let names_at = match put_texts(&mut w, highlight_names) {
        None => { return None; },
        Some(d) => d,
    };
    let ghost named = w@;
    let mut cells: Vec<Cell> = Vec::new();
    cells.push(Cell::Ref(documents_at));
    cells.push(Cell::Ref(names_at));
    let root = match w.put_table(&cells) {
        None => { return None; },
        Some(d) => d,
    };
    let ghost rooted = w@;
    proof {
        lemma_extends_trans(rooted, named, indexed);
        lemma_shift_spans_documents_at(rooted, indexed, indexed.len() - documents_at);
        lemma_shift_texts_at(rooted, named, named.len() - names_at);
        lemma_spans_root_assembled(
            rooted,
            rooted.len() - root,
            cells@,
            documents_at,
            names_at,
            view,
        );
    }
    match w.finish(root) {
        None => None,
        Some(bytes) => {
            proof {
                lemma_shift_spans_root(bytes@, rooted, rooted.len() - root);
            }
            Some(bytes)
        },
    }
}

} // verus!
