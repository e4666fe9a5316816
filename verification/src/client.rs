//! Building a request on the client's side.

use vstd::prelude::*;
use crate::envelope::html::{
    decode_html_response, html_views, spec_html_response, HtmlDocument, HtmlDocumentView,
};
use crate::envelope::read::MAX_ENVELOPE_SIZE;
use crate::envelope::request::MAX_TABLES;
use crate::envelope::request_write::{
    file_size, files_size_upto, lemma_files_assembled, lemma_files_size_grows,
    lemma_request_assembled, lemma_shift_file_value, lemma_shift_file_values_at,
    lemma_shift_request_value_root, put_file, request_size, spec_file_value_at, spec_file_values_at,
    spec_request_value, FileValue, RequestValue,
};
use crate::envelope::write::{table_size, Cell, Writer};
use crate::languages::Language;

verus! {

/// One file of a request that is being built.
#[derive(Debug)]
pub struct FileEntry {
    /// The correlation number under which the answer will come back.
    pub ident: u16,
    pub filename: String,
    /// The language of the file; `Unspecified` leaves it to the server to
    /// infer it from the file name.
    pub language: Language,
    pub contents: Vec<u8>,
    /// Whether languages embedded in the file are highlighted too.
    pub include_injections: bool,
}

impl View for FileEntry {
    type V = FileValue;

    open spec fn view(&self) -> FileValue {
        FileValue {
            ident: self.ident,
            filename: self.filename@,
            contents: Some(self.contents@),
            language: self.language.spec_tag(),
            include_injections: self.include_injections,
        }
    }
}

/// The views of a sequence of entries, one for one.
pub open spec fn entry_views(files: Seq<FileEntry>) -> Seq<FileValue> {
    Seq::new(files.len(), |i: int| files[i]@)
}

/// A request that is being built: a batch of files and one deadline for
/// each of them.
#[derive(Debug)]
pub struct Request {
    files: Vec<FileEntry>,
    timeout_ms: u64,
}

impl View for Request {
    type V = RequestValue;

    closed spec fn view(&self) -> RequestValue {
        RequestValue { files: entry_views(self.files@), timeout_ms: self.timeout_ms }
    }
}

impl Request {
    /// A request without files that asks for the server's default
    /// deadline.
    pub fn new() -> (request: Request)
        ensures
            request@ == (RequestValue { files: Seq::empty(), timeout_ms: 0 }),
    {
        let request = Request { files: Vec::new(), timeout_ms: 0 };
        assert(entry_views(request.files@) =~= Seq::<FileValue>::empty());
        request
    }

    /// The same request with another deadline, in milliseconds; 0 asks for
    /// the server's default.
    pub fn with_timeout(self, timeout_ms: u64) -> (request: Request)
        ensures
            request@ == (RequestValue { files: self@.files, timeout_ms }),
    {
        Request { files: self.files, timeout_ms }
    }

    /// Adds a file at the end of the batch. Embedded languages are not
    /// highlighted.
    pub fn add_file(
        &mut self,
        ident: u16,
        filename: &str,
        language: Language,
        contents: &[u8],
    ) -> (request: &mut Request)
        ensures
            *final(self) == *final(request),
            request@ == (RequestValue {
                files: old(self)@.files.push(
                    FileValue {
                        ident,
                        filename: filename@,
                        contents: Some(contents@),
                        language: language.spec_tag(),
                        include_injections: false,
                    },
                ),
                timeout_ms: old(self)@.timeout_ms,
            }),
    {
        self.add_file_with_injections(ident, filename, language, contents, false)
    }

    /// Adds a file at the end of the batch, and says whether languages
    /// embedded in it are highlighted too.
    pub fn add_file_with_injections(
        &mut self,
        ident: u16,
        filename: &str,
        language: Language,
        contents: &[u8],
        include_injections: bool,
    ) -> (request: &mut Request)
        ensures
            *final(self) == *final(request),
            request@ == (RequestValue {
                files: old(self)@.files.push(
                    FileValue {
                        ident,
                        filename: filename@,
                        contents: Some(contents@),
                        language: language.spec_tag(),
                        include_injections,
                    },
                ),
                timeout_ms: old(self)@.timeout_ms,
            }),
    {
        let entry = FileEntry {
            ident,
            filename: filename.to_owned(),
            language,
            contents: vstd::slice::slice_to_vec(contents),
            include_injections,
        };
        self.files.push(entry);
        assert(entry_views(self.files@) =~= entry_views(old(self).files@).push(entry@));
        self
    }

    /// The number of files in the batch.
    pub fn len(&self) -> (n: usize)
        ensures
            n == self@.files.len(),
    {
        self.files.len()
    }

    /// The deadline that the request asks for, in milliseconds.
    pub fn timeout_ms(&self) -> (timeout_ms: u64)
        ensures
            timeout_ms == self@.timeout_ms,
    {
        self.timeout_ms
    }

    /// Writes the files, then the vector of their offsets.
    fn put_files(&self, w: &mut Writer) -> (at: Option<usize>)
        requires
            old(w).wf(),
            old(w)@.len() == 0,
        ensures
            match at {
                Some(d) => {
                    &&& final(w).wf()
                    &&& final(w)@.len() == request_size(self@) - 8 - table_size(2)
                    &&& d == final(w)@.len()
                    &&& spec_file_values_at(final(w)@, final(w)@.len() - d) == Some(self@.files)
                },
                None => request_size(self@) - 8 - table_size(2) > MAX_ENVELOPE_SIZE,
            },
    {
        let ghost values = self@.files;
        let mut places: Vec<usize> = Vec::new();
        let mut i: usize = 0;
        while i < self.files.len()
            invariant
                values == entry_views(self.files@),
                w.wf(),
                i <= self.files.len(),
                places.len() == i,
                w@.len() == files_size_upto(values, i as int),
                forall|k: int| 0 <= k < i ==> #[trigger] places@[k] <= w@.len(),
                forall|k: int|
                    0 <= k < i ==> spec_file_value_at(w@, w@.len() - #[trigger] places@[k])
                        == Some(values[k]),
            decreases self.files.len() - i,
        {
            let ghost was = w@;
            proof {
                lemma_files_size_grows(values, i as int + 1, self.files.len() as int);
                assert(values[i as int] == self.files@[i as int]@);
                assert(files_size_upto(values, i as int + 1) == files_size_upto(values, i as int)
                    + file_size(values[i as int]));
            }
            let entry = &self.files[i];
            match put_file(
                w,
                entry.ident,
                entry.filename.as_str(),
                entry.contents.as_slice(),
                entry.language.tag(),
                entry.include_injections,
            ) {
                None => {
                    return None;
                },
                Some(d) => {
                    proof {
                        assert forall|k: int| 0 <= k < i implies spec_file_value_at(
                            w@,
                            w@.len() - #[trigger] places@[k],
                        ) == Some(values[k]) by {
                            lemma_shift_file_value(w@, was, was.len() - places@[k]);
                        }
                    }
                    places.push(d);
                },
            }
            i += 1;
        }
        let ghost listed = w@;
        match w.put_offsets(&places) {
            None => None,
            Some(d) => {
                proof {
                    lemma_files_assembled(w@, listed, places@, values);
                }
                Some(d)
            },
        }
    }

    /// Encodes the request. The answer is `None` exactly where the request
    /// has too many files or the envelope would pass its limit; otherwise
    /// the bytes are a well-formed request that means this one.
    pub fn build_message(&self) -> (bytes: Option<Vec<u8>>)
        ensures
            match bytes {
                Some(b) => {
                    &&& b@.len() == request_size(self@)
                    &&& spec_request_value(b@) == Some(self@)
                },
                None => self@.files.len() + 1 > MAX_TABLES || request_size(self@)
                    > MAX_ENVELOPE_SIZE,
            },
    {
        if self.files.len() >= MAX_TABLES {
            return None;
        }
        let mut w = Writer::new();
        let files_at = match self.put_files(&mut w) {
            None => { return None; },
            Some(d) => d,
        };
        let ghost indexed = w@;
        let mut cells: Vec<Cell> = Vec::new();
        cells.push(Cell::Ref(files_at));
        cells.push(Cell::Long(self.timeout_ms));
        let root = match w.put_table(&cells) {
            None => { return None; },
            Some(d) => d,
        };
        let ghost rooted = w@;
        proof {
            lemma_shift_file_values_at(rooted, indexed, indexed.len() - files_at);
            lemma_request_assembled(rooted, rooted.len() - root, cells@, files_at, self@);
        }
        match w.finish(root) {
            None => None,
            Some(bytes) => {
                proof {
                    lemma_shift_request_value_root(bytes@, rooted, rooted.len() - root);
                }
                Some(bytes)
            },
        }
    }
}

impl Default for Request {
    fn default() -> (request: Request)
        ensures
            request@ == (RequestValue { files: Seq::empty(), timeout_ms: 0 }),
    {
        Request::new()
    }
}

/// The documents among the first `n` that report a failure, in their
/// order.
pub open spec fn spec_failures(documents: Seq<HtmlDocumentView>, n: int) -> Seq<HtmlDocumentView>
    decreases n,
{
    if n <= 0 {
        Seq::empty()
    } else if documents[n - 1].error_code != 0 {
        spec_failures(documents, n - 1).push(documents[n - 1])
    } else {
        spec_failures(documents, n - 1)
    }
}

/// The views of a sequence of borrowed documents, one for one.
pub open spec fn borrowed_views(documents: Seq<&HtmlDocument>) -> Seq<HtmlDocumentView> {
    Seq::new(documents.len(), |i: int| documents[i]@)
}

/// A markup response on the client's side.
#[derive(Debug)]
pub struct Response {
    documents: Vec<HtmlDocument>,
}

impl View for Response {
    type V = Seq<HtmlDocumentView>;

    /// The documents of the response, in their order.
    closed spec fn view(&self) -> Seq<HtmlDocumentView> {
        html_views(self.documents@)
    }
}

impl Response {
    /// Decodes a response. The answer is `None` exactly where the bytes
    /// are no well-formed response.
    pub fn new(body: &[u8]) -> (response: Option<Response>)
        ensures
            spec_html_response(body@) == match response {
                Some(r) => Some(r@),
                None => None::<Seq<HtmlDocumentView>>,
            },
    {
        match decode_html_response(body) {
            Some(documents) => Some(Response { documents }),
            None => None,
        }
    }

    /// The documents of the response, in their order.
    pub fn documents(&self) -> (documents: &Vec<HtmlDocument>)
        ensures
            html_views(documents@) == self@,
    {
        &self.documents
    }

    /// The documents that report a failure, in their order.
    pub fn failures(&self) -> (failures: Vec<&HtmlDocument>)
        ensures
            borrowed_views(failures@) == spec_failures(self@, self@.len() as int),
    {
        let mut failures: Vec<&HtmlDocument> = Vec::new();
        let mut i: usize = 0;
        while i < self.documents.len()
            invariant
                i <= self.documents.len(),
                borrowed_views(failures@) == spec_failures(self@, i as int),
            decreases self.documents.len() - i,
        {
            let ghost before = failures@;
            assert(self@[i as int] == self.documents@[i as int]@);
            if self.documents[i].error_code != 0 {
                failures.push(&self.documents[i]);
                assert(borrowed_views(failures@) =~= borrowed_views(before).push(
                    self.documents@[i as int]@,
                ));
            }
            i += 1;
        }
        failures
    }
}

} // verus!
