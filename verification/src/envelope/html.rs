//! The response envelope of the markup endpoint.
//!
//! The root table of the response holds the vector of its documents in
//! slot 0. The table of a document holds the correlation number in slot 0,
//! the file name in slot 1, the language number in slot 2, the rendered
//! lines in slot 3 and the error code in slot 4. A document that reports a
//! failure leaves the lines out.

use vstd::prelude::*;
use vstd::utf8::encode_utf8;
use crate::envelope::read::{
    ref_field, spec_ref_field, spec_table_at, spec_target, spec_u16_field, spec_u8_field,
    spec_vector_at, table_at, target, u16_field, u8_field, vector_at, ByteRange, MAX_ENVELOPE_SIZE,
};
use crate::envelope::shift::{
    extends, lemma_extends_trans, lemma_shift_ref_field, lemma_shift_table, lemma_shift_target,
    lemma_shift_u16_field, lemma_shift_u8_field, lemma_shift_vector, moved_range,
};
use crate::envelope::text::{
    lemma_shift_text, lemma_shift_text_field, lemma_shift_texts_at, lemma_shift_texts_field,
    lemma_texts_size_grows, put_text, put_texts, spec_text_at, spec_text_field, spec_texts_at,
    spec_texts_field, text_field, text_views, texts_field, texts_size,
};
use crate::envelope::write::{cell_holds, offsets_size, string_size, table_size, Cell, Writer};

verus! {

pub const RESPONSE_DOCUMENTS: usize = 0;

pub const DOCUMENT_IDENT: usize = 0;

pub const DOCUMENT_FILENAME: usize = 1;

pub const DOCUMENT_LANGUAGE: usize = 2;

pub const DOCUMENT_PAYLOAD: usize = 3;

pub const DOCUMENT_ERROR_CODE: usize = 4;

/// One document of a markup response.
#[derive(Debug)]
pub struct HtmlDocument {
    /// The correlation number of the file that the document answers.
    pub ident: u16,
    pub filename: String,
    /// The number of the language in which the file was read.
    pub language: u8,
    /// The rendered lines; `None` where the document reports a failure.
    pub lines: Option<Vec<String>>,
    /// The number of the error code.
    pub error_code: u8,
}

/// What an [`HtmlDocument`] holds.
pub struct HtmlDocumentView {
    pub ident: u16,
    pub filename: Seq<char>,
    pub language: u8,
    pub lines: Option<Seq<Seq<char>>>,
    pub error_code: u8,
}

impl View for HtmlDocument {
    type V = HtmlDocumentView;

    open spec fn view(&self) -> HtmlDocumentView {
        HtmlDocumentView {
            ident: self.ident,
            filename: self.filename@,
            language: self.language,
            lines: match self.lines {
                Some(lines) => Some(text_views(lines@)),
                None => None,
            },
            error_code: self.error_code,
        }
    }
}

/// Whatever can be written as a document of a markup response.
pub trait HtmlSource {
    /// The document that is written.
    spec fn document(&self) -> HtmlDocumentView;

    /// Writes the document: its file name, its lines if it has any, then
    /// its table. `at` is the distance from the end of the buffer at which
    /// the table then starts; the answer is `None` where the envelope
    /// would pass its limit.
    fn put_document(&self, w: &mut Writer) -> (at: Option<usize>)
        requires
            old(w).wf(),
        ensures
            match at {
                Some(d) => {
                    &&& final(w).wf()
                    &&& extends(final(w)@, old(w)@)
                    &&& final(w)@.len() == old(w)@.len() + html_document_size(self.document())
                    &&& d <= final(w)@.len()
                    &&& spec_html_document_at(final(w)@, final(w)@.len() - d) == Some(
                        self.document(),
                    )
                },
                None => old(w)@.len() + html_document_size(self.document()) > MAX_ENVELOPE_SIZE,
            },
    ;
}

/// The documents of a sequence of sources, one for one.
pub open spec fn html_views<S: HtmlSource>(documents: Seq<S>) -> Seq<HtmlDocumentView> {
    Seq::new(documents.len(), |i: int| documents[i].document())
}

impl HtmlSource for HtmlDocument {
    open spec fn document(&self) -> HtmlDocumentView {
        self@
    }

    fn put_document(&self, w: &mut Writer) -> (at: Option<usize>) {
        put_html_document(
            w,
            self.ident,
            self.filename.as_str(),
            self.language,
            self.lines.as_ref(),
            self.error_code,
        )
    }
}

/// The document whose table starts at `pos`.
#[verifier::opaque]
pub open spec fn spec_html_document_at(b: Seq<u8>, pos: int) -> Option<HtmlDocumentView> {
    match spec_table_at(b, pos) {
        None => None,
        Some(t) => match (
            spec_u16_field(b, t, DOCUMENT_IDENT as int, 0),
            spec_text_field(b, t, DOCUMENT_FILENAME as int),
            spec_u8_field(b, t, DOCUMENT_LANGUAGE as int, 0),
            spec_texts_field(b, t, DOCUMENT_PAYLOAD as int),
            spec_u8_field(b, t, DOCUMENT_ERROR_CODE as int, 0),
        ) {
            (Some(ident), Some(filename), Some(language), Some(lines), Some(error_code)) => Some(
                HtmlDocumentView {
                    ident,
                    filename: match filename {
                        Some(text) => text,
                        None => Seq::empty(),
                    },
                    language,
                    lines,
                    error_code,
                },
            ),
            _ => None,
        },
    }
}

/// The document that element `i` of a vector of documents refers to.
pub open spec fn spec_html_element(b: Seq<u8>, elements: ByteRange, i: int) -> Option<
    HtmlDocumentView,
> {
    match spec_target(b, elements.start + 4 * i) {
        None => None,
        Some(pos) => spec_html_document_at(b, pos),
    }
}

/// The documents that a vector refers to, in its order.
pub open spec fn spec_html_documents(b: Seq<u8>, elements: ByteRange) -> Option<
    Seq<HtmlDocumentView>,
> {
    if forall|i: int|
        0 <= i < elements.len ==> (#[trigger] spec_html_element(b, elements, i)) is Some {
        Some(Seq::new(elements.len as nat, |i: int| spec_html_element(b, elements, i).unwrap()))
    } else {
        None
    }
}

/// The vector of documents that starts at `pos`.
pub open spec fn spec_html_documents_at(b: Seq<u8>, pos: int) -> Option<Seq<HtmlDocumentView>> {
    match spec_vector_at(b, pos, 4) {
        None => None,
        Some(elements) => spec_html_documents(b, elements),
    }
}

/// The documents of the response whose root table starts at `pos`; a
/// response without the vector has no documents.
pub open spec fn spec_html_root_at(b: Seq<u8>, pos: int) -> Option<Seq<HtmlDocumentView>> {
    match spec_table_at(b, pos) {
        None => None,
        Some(t) => match spec_ref_field(b, t, RESPONSE_DOCUMENTS as int) {
            None => None,
            Some(None) => Some(Seq::empty()),
            Some(Some(target)) => spec_html_documents_at(b, target),
        },
    }
}

/// What the bytes of a markup response mean: its documents in their order,
/// or `None` where the bytes are no well-formed response.
pub open spec fn spec_html_response(b: Seq<u8>) -> Option<Seq<HtmlDocumentView>> {
    if b.len() > MAX_ENVELOPE_SIZE {
        None
    } else {
        match spec_target(b, 0) {
            None => None,
            Some(root) => spec_html_root_at(b, root),
        }
    }
}

/// The bytes that a document takes in an envelope.
pub open spec fn html_document_size(d: HtmlDocumentView) -> int {
    string_size(encode_utf8(d.filename).len() as int) + (match d.lines {
        Some(lines) => texts_size(lines),
        None => 0,
    }) + table_size(5)
}

/// The bytes that the first `n` documents take.
pub open spec fn html_documents_size_upto(documents: Seq<HtmlDocumentView>, n: int) -> int
    decreases n,
{
    if n <= 0 {
        0
    } else {
        html_documents_size_upto(documents, n - 1) + html_document_size(documents[n - 1])
    }
}

/// The length of the envelope of a response with these documents.
pub open spec fn html_response_size(documents: Seq<HtmlDocumentView>) -> int {
    html_documents_size_upto(documents, documents.len() as int) + offsets_size(
        documents.len() as int,
    ) + table_size(1) + 8
}

pub proof fn lemma_html_document_size_positive(d: HtmlDocumentView)
    ensures
        html_document_size(d) >= 0,
{
    match d.lines {
        Some(lines) => {
            lemma_texts_size_grows(lines, 0, lines.len() as int);
        },
        None => {},
    }
}

pub proof fn lemma_html_documents_size_grows(documents: Seq<HtmlDocumentView>, i: int, n: int)
    requires
        0 <= i <= n,
    ensures
        0 <= html_documents_size_upto(documents, i) <= html_documents_size_upto(documents, n),
    decreases n,
{
    if n > 0 {
        lemma_html_document_size_positive(documents[n - 1]);
        if i < n {
            lemma_html_documents_size_grows(documents, i, n - 1);
        } else {
            lemma_html_documents_size_grows(documents, i - 1, n - 1);
        }
    }
}

pub proof fn lemma_shift_html_document(new: Seq<u8>, old: Seq<u8>, pos: int)
    requires
        extends(new, old),
        new.len() <= usize::MAX,
        spec_html_document_at(old, pos) is Some,
    ensures
        spec_html_document_at(new, pos + (new.len() - old.len())) == spec_html_document_at(
            old,
            pos,
        ),
{
    reveal(spec_html_document_at);
    lemma_shift_table(new, old, pos);
    let t = spec_table_at(old, pos).unwrap();
    lemma_shift_u16_field(new, old, t, DOCUMENT_IDENT as int, 0);
    lemma_shift_text_field(new, old, t, DOCUMENT_FILENAME as int);
    lemma_shift_u8_field(new, old, t, DOCUMENT_LANGUAGE as int, 0);
    lemma_shift_texts_field(new, old, t, DOCUMENT_PAYLOAD as int);
    lemma_shift_u8_field(new, old, t, DOCUMENT_ERROR_CODE as int, 0);
}

pub proof fn lemma_shift_html_documents_at(new: Seq<u8>, old: Seq<u8>, pos: int)
    requires
        extends(new, old),
        new.len() <= usize::MAX,
        spec_html_documents_at(old, pos) is Some,
    ensures
        spec_html_documents_at(new, pos + (new.len() - old.len())) == spec_html_documents_at(
            old,
            pos,
        ),
{
    let k = new.len() - old.len();
    lemma_shift_vector(new, old, pos, 4);
    let elements = spec_vector_at(old, pos, 4).unwrap();
    let moved = moved_range(elements, k);
    assert forall|i: int| 0 <= i < elements.len implies #[trigger] spec_html_element(new, moved, i)
        == spec_html_element(old, elements, i) by {
        assert(spec_html_element(old, elements, i) is Some);
        lemma_shift_target(new, old, elements.start + 4 * i);
        lemma_shift_html_document(new, old, spec_target(old, elements.start + 4 * i).unwrap());
    }
    assert(spec_html_documents(new, moved).unwrap() =~= spec_html_documents(
        old,
        elements,
    ).unwrap());
}

pub proof fn lemma_shift_html_root(new: Seq<u8>, old: Seq<u8>, pos: int)
    requires
        extends(new, old),
        new.len() <= usize::MAX,
        spec_html_root_at(old, pos) is Some,
    ensures
        spec_html_root_at(new, pos + (new.len() - old.len())) == spec_html_root_at(old, pos),
{
    lemma_shift_table(new, old, pos);
    let t = spec_table_at(old, pos).unwrap();
    lemma_shift_ref_field(new, old, t, RESPONSE_DOCUMENTS as int);
    match spec_ref_field(old, t, RESPONSE_DOCUMENTS as int).unwrap() {
        None => {},
        Some(target) => {
            lemma_shift_html_documents_at(new, old, target);
        },
    }
}

fn html_document_at(b: &[u8], pos: u64) -> (document: Option<HtmlDocument>)
    requires
        b.len() <= MAX_ENVELOPE_SIZE,
    ensures
        spec_html_document_at(b@, pos as int) == match document {
            None => None::<HtmlDocumentView>,
            Some(d) => Some(d@),
        },
{
    reveal(spec_html_document_at);
    if pos > b.len() as u64 {
        return None;
    }
    let t = match table_at(b, pos as usize) {
        None => { return None; },
        Some(t) => t,
    };
    let ident = match u16_field(b, t, DOCUMENT_IDENT, 0) {
        None => { return None; },
        Some(v) => v,
    };
    let filename = match text_field(b, t, DOCUMENT_FILENAME) {
        None => { return None; },
        Some(None) => String::new(),
        Some(Some(text)) => text,
    };
    let language = match u8_field(b, t, DOCUMENT_LANGUAGE, 0) {
        None => { return None; },
        Some(v) => v,
    };
    let lines = match texts_field(b, t, DOCUMENT_PAYLOAD) {
        None => { return None; },
        Some(v) => v,
    };
    let error_code = match u8_field(b, t, DOCUMENT_ERROR_CODE, 0) {
        None => { return None; },
        Some(v) => v,
    };
    Some(HtmlDocument { ident, filename, language, lines, error_code })
}

fn html_element(b: &[u8], elements: ByteRange, i: usize) -> (document: Option<HtmlDocument>)
    requires
        b.len() <= MAX_ENVELOPE_SIZE,
        elements.start + 4 * elements.len <= b.len(),
        i < elements.len,
    ensures
        spec_html_element(b@, elements, i as int) == match document {
            None => None::<HtmlDocumentView>,
            Some(d) => Some(d@),
        },
{
    match target(b, elements.start + 4 * i) {
        None => None,
        Some(pos) => html_document_at(b, pos),
    }
}

fn html_documents_at(b: &[u8], pos: u64) -> (documents: Option<Vec<HtmlDocument>>)
    requires
        b.len() <= MAX_ENVELOPE_SIZE,
    ensures
        spec_html_documents_at(b@, pos as int) == match documents {
            None => None::<Seq<HtmlDocumentView>>,
            Some(v) => Some(html_views(v@)),
        },
{
    let elements = match vector_at(b, pos, 4) {
        None => { return None; },
        Some(elements) => elements,
    };
    let mut documents: Vec<HtmlDocument> = Vec::new();
    let mut i: usize = 0;
    while i < elements.len
        invariant
            b.len() <= MAX_ENVELOPE_SIZE,
            elements.start + 4 * elements.len <= b.len(),
            i <= elements.len,
            documents.len() == i,
            spec_vector_at(b@, pos as int, 4) == Some(elements),
            forall|k: int|
                0 <= k < i ==> (#[trigger] spec_html_element(b@, elements, k)) == Some(
                    documents@[k]@,
                ),
        decreases elements.len - i,
    {
        match html_element(b, elements, i) {
            None => {
                assert(spec_html_element(b@, elements, i as int) is None);
                return None;
            },
            Some(document) => {
                documents.push(document);
            },
        }
        i += 1;
    }
    assert(html_views(documents@) =~= Seq::new(
        elements.len as nat,
        |i: int| spec_html_element(b@, elements, i).unwrap(),
    ));
    Some(documents)
}

/// Decodes a markup response. The answer is `None` exactly where the bytes
/// are no well-formed response; otherwise it is the documents that the
/// bytes mean, in their order.
pub fn decode_html_response(body: &[u8]) -> (documents: Option<Vec<HtmlDocument>>)
    ensures
        spec_html_response(body@) == match documents {
            None => None::<Seq<HtmlDocumentView>>,
            Some(v) => Some(html_views(v@)),
        },
{
    if body.len() > MAX_ENVELOPE_SIZE {
        return None;
    }
    let root = match target(body, 0) {
        None => { return None; },
        Some(root) => root,
    };
    if root > body.len() as u64 {
        return None;
    }
    let t = match table_at(body, root as usize) {
        None => { return None; },
        Some(t) => t,
    };
    match ref_field(body, t, RESPONSE_DOCUMENTS) {
        None => None,
        Some(None) => {
            assert(html_views::<HtmlDocument>(Seq::<HtmlDocument>::empty()) =~= Seq::<
                HtmlDocumentView,
            >::empty());
            Some(Vec::new())
        },
        Some(Some(at)) => html_documents_at(body, at),
    }
}

/// A table whose cells hold the parts of a document is that document.
proof fn lemma_html_document_assembled(
    b: Seq<u8>,
    pos: int,
    cells: Seq<Cell>,
    name_at: usize,
    view: HtmlDocumentView,
)
    requires
        b.len() <= MAX_ENVELOPE_SIZE,
        spec_table_at(b, pos) is Some,
        cells.len() == 5,
        cells[0] == Cell::Short(view.ident),
        cells[1] == Cell::Ref(name_at),
        cells[2] == Cell::Byte(view.language),
        cells[3] is Absent || cells[3] is Ref,
        cells[4] == Cell::Byte(view.error_code),
        forall|k: int|
            0 <= k < 5 ==> #[trigger] cell_holds(b, spec_table_at(b, pos).unwrap(), k, cells[k]),
        spec_text_at(b, b.len() - name_at) == Some(view.filename),
        cells[3] is Absent ==> view.lines is None,
        cells[3] matches Cell::Ref(d) ==> view.lines is Some && spec_texts_at(b, b.len() - d)
            == view.lines,
    ensures
        spec_html_document_at(b, pos) == Some(view),
{
    reveal(spec_html_document_at);
    let t = spec_table_at(b, pos).unwrap();
    assert(cell_holds(b, t, 0, cells[0]));
    assert(cell_holds(b, t, 1, cells[1]));
    assert(cell_holds(b, t, 2, cells[2]));
    assert(cell_holds(b, t, 3, cells[3]));
    assert(cell_holds(b, t, 4, cells[4]));
}

/// A root table whose cell holds the vector of the documents is the
/// response.
proof fn lemma_html_root_assembled(
    b: Seq<u8>,
    pos: int,
    cells: Seq<Cell>,
    vector_at: usize,
    views: Seq<HtmlDocumentView>,
)
    requires
        b.len() <= MAX_ENVELOPE_SIZE,
        spec_table_at(b, pos) is Some,
        cells.len() == 1,
        cells[0] == Cell::Ref(vector_at),
        forall|k: int|
            0 <= k < 1 ==> #[trigger] cell_holds(b, spec_table_at(b, pos).unwrap(), k, cells[k]),
        spec_html_documents_at(b, b.len() - vector_at) == Some(views),
    ensures
        spec_html_root_at(b, pos) == Some(views),
{
    let t = spec_table_at(b, pos).unwrap();
    assert(cell_holds(b, t, 0, cells[0]));
}

/// A vector whose offsets point to the documents is the vector of the
/// documents.
proof fn lemma_html_documents_assembled(
    b: Seq<u8>,
    old: Seq<u8>,
    places: Seq<usize>,
    views: Seq<HtmlDocumentView>,
)
    requires
        extends(b, old),
        b.len() <= MAX_ENVELOPE_SIZE,
        places.len() == views.len(),
        places.len() <= MAX_ENVELOPE_SIZE,
        spec_vector_at(b, 0, 4) == Some(ByteRange { start: 4, len: places.len() as usize }),
        forall|i: int|
            0 <= i < places.len() ==> #[trigger] spec_target(b, 4 + 4 * i) == Some(
                b.len() - places[i],
            ),
        forall|k: int|
            0 <= k < places.len() ==> spec_html_document_at(old, old.len() - #[trigger] places[k])
                == Some(views[k]),
    ensures
        spec_html_documents_at(b, 0) == Some(views),
{
    let elements = ByteRange { start: 4, len: places.len() as usize };
    assert forall|k: int| 0 <= k < elements.len implies #[trigger] spec_html_element(
        b,
        elements,
        k,
    ) == Some(views[k]) by {
        assert(spec_target(b, 4 + 4 * k) == Some(b.len() - places[k]));
        lemma_shift_html_document(b, old, old.len() - places[k]);
    }
    assert(spec_html_documents(b, elements).unwrap() =~= views);
}

/// Writes a document from its parts: its file name, its lines if it has
/// any, then its table. `at` is the distance from the end of the buffer at
/// which the table then starts.
pub fn put_html_document(
    w: &mut Writer,
    ident: u16,
    filename: &str,
    language: u8,
    lines: Option<&Vec<String>>,
    error_code: u8,
) -> (at: Option<usize>)
    requires
        old(w).wf(),
    ensures
        ({
            let view = HtmlDocumentView {
                ident,
                filename: filename@,
                language,
                lines: match lines {
                    Some(lines) => Some(text_views(lines@)),
                    None => None,
                },
                error_code,
            };
            match at {
                Some(d) => {
                    &&& final(w).wf()
                    &&& extends(final(w)@, old(w)@)
                    &&& final(w)@.len() == old(w)@.len() + html_document_size(view)
                    &&& d <= final(w)@.len()
                    &&& spec_html_document_at(final(w)@, final(w)@.len() - d) == Some(view)
                },
                None => old(w)@.len() + html_document_size(view) > MAX_ENVELOPE_SIZE,
            }
        }),
{
    let ghost start = w@;
    let ghost view = HtmlDocumentView {
        ident,
        filename: filename@,
        language,
        lines: match lines {
            Some(lines) => Some(text_views(lines@)),
            None => None,
        },
        error_code,
    };
    proof {
        lemma_html_document_size_positive(view);
        match view.lines {
            Some(lines) => {
                lemma_texts_size_grows(lines, 0, lines.len() as int);
            },
            None => {},
        }
    }
    let name_at = match put_text(w, filename) {
        None => { return None; },
        Some(d) => d,
    };
    let ghost named = w@;
    let payload = match lines {
        None => Cell::Absent,
        Some(lines) => match put_texts(w, lines) {
            None => { return None; },
            Some(d) => Cell::Ref(d),
        },
    };
    let ghost filled = w@;
    proof {
        lemma_extends_trans(filled, named, start);
    }
    let mut cells: Vec<Cell> = Vec::new();
    cells.push(Cell::Short(ident));
    cells.push(Cell::Ref(name_at));
    cells.push(Cell::Byte(language));
    cells.push(payload);
    cells.push(Cell::Byte(error_code));
    let at = match w.put_table(&cells) {
        None => { return None; },
        Some(d) => d,
    };
    proof {
        let b = w@;
        lemma_extends_trans(b, filled, named);
        lemma_extends_trans(b, filled, start);
        lemma_shift_text(b, named, named.len() - name_at);
        if let Cell::Ref(lines_at) = payload {
            lemma_shift_texts_at(b, filled, filled.len() - lines_at);
        }
        lemma_html_document_assembled(b, b.len() - at, cells@, name_at, view);
    }
    Some(at)
}

/// Writes the documents, then the vector of their offsets. `at` is the
/// distance from the end of the buffer at which the vector then starts.
fn put_html_documents<S: HtmlSource>(w: &mut Writer, documents: &Vec<S>) -> (at: Option<usize>)
    requires
        old(w).wf(),
        old(w)@.len() == 0,
    ensures
        match at {
            Some(d) => {
                &&& final(w).wf()
                &&& final(w)@.len() == html_documents_size_upto(
                    html_views(documents@),
                    documents@.len() as int,
                ) + offsets_size(documents@.len() as int)
                &&& d == final(w)@.len()
                &&& spec_html_documents_at(final(w)@, final(w)@.len() - d) == Some(
                    html_views(documents@),
                )
            },
            None => html_documents_size_upto(html_views(documents@), documents@.len() as int)
                + offsets_size(documents@.len() as int) > MAX_ENVELOPE_SIZE,
        },
{
    let ghost views = html_views(documents@);
    let mut places: Vec<usize> = Vec::new();
    let mut i: usize = 0;
    while i < documents.len()
        invariant
            views == html_views(documents@),
            w.wf(),
            i <= documents.len(),
            places.len() == i,
            w@.len() == html_documents_size_upto(views, i as int),
            forall|k: int| 0 <= k < i ==> #[trigger] places@[k] <= w@.len(),
            forall|k: int|
                0 <= k < i ==> spec_html_document_at(w@, w@.len() - #[trigger] places@[k]) == Some(
                    views[k],
                ),
        decreases documents.len() - i,
    {
        let ghost was = w@;
        proof {
            lemma_html_documents_size_grows(views, i as int + 1, documents.len() as int);
            assert(views[i as int] == documents@[i as int].document());
            assert(html_documents_size_upto(views, i as int + 1) == html_documents_size_upto(
                views,
                i as int,
            ) + html_document_size(views[i as int]));
        }
        match documents[i].put_document(w) {
            None => {
                return None;
            },
            Some(d) => {
                proof {
                    assert forall|k: int| 0 <= k < i implies spec_html_document_at(
                        w@,
                        w@.len() - #[trigger] places@[k],
                    ) == Some(views[k]) by {
                        lemma_shift_html_document(w@, was, was.len() - places@[k]);
                    }
                }
                places.push(d);
            },
        }
        i += 1;
    }
    let ghost listed = w@;
    match w.put_offsets(&places) {
        None => None,
        Some(d) => {
            proof {
                lemma_html_documents_assembled(w@, listed, places@, views);
            }
            Some(d)
        },
    }
}

/// Encodes a markup response with these documents, in their order. The
/// answer is `None` exactly where the envelope would pass its limit;
/// otherwise decoding the bytes gives the documents back.
pub fn encode_html_response<S: HtmlSource>(documents: &Vec<S>) -> (bytes: Option<Vec<u8>>)
    ensures
        match bytes {
            Some(b) => {
                &&& b@.len() == html_response_size(html_views(documents@))
                &&& spec_html_response(b@) == Some(html_views(documents@))
            },
            None => html_response_size(html_views(documents@)) > MAX_ENVELOPE_SIZE,
        },
{
    let ghost views = html_views(documents@);
    let mut w = Writer::new();
    let vector_at = match put_html_documents(&mut w, documents) {
        None => { return None; },
        Some(d) => d,
    };
    let ghost indexed = w@;
    let mut cells: Vec<Cell> = Vec::new();
    cells.push(Cell::Ref(vector_at));
    let root = match w.put_table(&cells) {
        None => { return None; },
        Some(d) => d,
    };
    let ghost rooted = w@;
    proof {
        lemma_shift_html_documents_at(rooted, indexed, indexed.len() - vector_at);
        lemma_html_root_assembled(rooted, rooted.len() - root, cells@, vector_at, views);
    }
    match w.finish(root) {
        None => None,
        Some(bytes) => {
            proof {
                lemma_shift_html_root(bytes@, rooted, rooted.len() - root);
            }
            Some(bytes)
        },
    }
}

} // verus!
