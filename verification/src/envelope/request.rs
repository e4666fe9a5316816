//! The request envelope.
//!
//! The root table of a request holds the vector of its files in slot 0 and
//! the deadline in milliseconds in slot 1. The table of a file holds the
//! correlation number in slot 0, the file name in slot 1, the contents in
//! slot 2, the language number in slot 4 and the injections flag in slot 5;
//! slot 3 is left to per-file options, which the server does not read. A
//! request of more than a million tables, the root table and one for each
//! file, is refused.
//!
//! Decoding copies no contents: a file's contents come back as the place
//! of their bytes in the request buffer.

use vstd::prelude::*;
use crate::envelope::text::{spec_text_field, text_field};
use crate::envelope::read::{
    ref_field, spec_ref_field, spec_table_at, spec_target, spec_u16_field, spec_u64_field,
    spec_u8_field, spec_vector_at, table_at, target, u16_field, u64_field, u8_field, vector_at,
    ByteRange, Table, MAX_ENVELOPE_SIZE,
};

verus! {

/// No request has more than a million tables: its root table and one for
/// each file.
pub const MAX_TABLES: usize = 1_000_000;

pub const REQUEST_FILES: usize = 0;

pub const REQUEST_TIMEOUT_MS: usize = 1;

pub const FILE_IDENT: usize = 0;

pub const FILE_FILENAME: usize = 1;

pub const FILE_CONTENTS: usize = 2;

pub const FILE_OPTIONS: usize = 3;

pub const FILE_LANGUAGE: usize = 4;

pub const FILE_INCLUDE_INJECTIONS: usize = 5;

/// One file of a decoded request.
#[derive(Clone, Debug)]
pub struct FileRecord {
    /// The client's correlation number.
    pub ident: u16,
    /// The file name; empty where the request gives none.
    pub filename: String,
    /// Where the contents lie in the request buffer, if the request gives
    /// any.
    pub contents: Option<ByteRange>,
    /// The language number as sent; 0 asks the server to infer it.
    pub language: u8,
    pub include_injections: bool,
}

/// What a [`FileRecord`] holds.
pub struct FileView {
    pub ident: u16,
    pub filename: Seq<char>,
    pub contents: Option<ByteRange>,
    pub language: u8,
    pub include_injections: bool,
}

impl View for FileRecord {
    type V = FileView;

    open spec fn view(&self) -> FileView {
        FileView {
            ident: self.ident,
            filename: self.filename@,
            contents: self.contents,
            language: self.language,
            include_injections: self.include_injections,
        }
    }
}

/// A decoded request.
#[derive(Debug)]
pub struct DecodedRequest {
    pub files: Vec<FileRecord>,
    /// The deadline for each file in milliseconds; 0 asks for the server's
    /// default.
    pub timeout_ms: u64,
}

/// What a [`DecodedRequest`] holds.
pub struct RequestView {
    pub files: Seq<FileView>,
    pub timeout_ms: u64,
}

/// The views of a sequence of records, one for one.
pub open spec fn file_views(files: Seq<FileRecord>) -> Seq<FileView> {
    Seq::new(files.len(), |i: int| files[i]@)
}

impl View for DecodedRequest {
    type V = RequestView;

    open spec fn view(&self) -> RequestView {
        RequestView { files: file_views(self.files@), timeout_ms: self.timeout_ms }
    }
}

/// The place of the bytes of a byte-vector field.
pub open spec fn spec_bytes_field(b: Seq<u8>, t: Table, slot: int) -> Option<Option<ByteRange>> {
    match spec_ref_field(b, t, slot) {
        None => None,
        Some(None) => Some(None),
        Some(Some(target)) => match spec_vector_at(b, target, 1) {
            None => None,
            Some(span) => Some(Some(span)),
        },
    }
}

/// The file whose table starts at `pos`.
#[verifier::opaque]
pub open spec fn spec_file_at(b: Seq<u8>, pos: int) -> Option<FileView> {
    match spec_table_at(b, pos) {
        None => None,
        Some(t) => match (
            spec_u16_field(b, t, FILE_IDENT as int, 0),
            spec_text_field(b, t, FILE_FILENAME as int),
            spec_bytes_field(b, t, FILE_CONTENTS as int),
            spec_u8_field(b, t, FILE_LANGUAGE as int, 0),
            spec_u8_field(b, t, FILE_INCLUDE_INJECTIONS as int, 0),
        ) {
            (Some(ident), Some(filename), Some(contents), Some(language), Some(flag)) => Some(
                FileView {
                    ident,
                    filename: match filename {
                        Some(text) => text,
                        None => Seq::empty(),
                    },
                    contents,
                    language,
                    include_injections: flag != 0,
                },
            ),
            _ => None,
        },
    }
}

/// The file that element `i` of a vector of files refers to.
pub open spec fn spec_file_element(b: Seq<u8>, elements: ByteRange, i: int) -> Option<FileView> {
    match spec_target(b, elements.start + 4 * i) {
        None => None,
        Some(pos) => spec_file_at(b, pos),
    }
}

/// The files that a vector refers to, in its order; `None` if one of them
/// is malformed.
pub open spec fn spec_files(b: Seq<u8>, elements: ByteRange) -> Option<Seq<FileView>> {
    if forall|i: int|
        0 <= i < elements.len ==> (#[trigger] spec_file_element(b, elements, i)) is Some {
        Some(Seq::new(elements.len as nat, |i: int| spec_file_element(b, elements, i).unwrap()))
    } else {
        None
    }
}

/// The files of a request whose root table is `t`; a request without the
/// vector has no files, and a request with too many files is no request.
pub open spec fn spec_files_field(b: Seq<u8>, t: Table) -> Option<Seq<FileView>> {
    match spec_ref_field(b, t, REQUEST_FILES as int) {
        None => None,
        Some(None) => Some(Seq::empty()),
        Some(Some(target)) => match spec_vector_at(b, target, 4) {
            None => None,
            Some(elements) => if elements.len + 1 > MAX_TABLES {
                None
            } else {
                spec_files(b, elements)
            },
        },
    }
}

/// The request whose root table starts at `pos`.
pub open spec fn spec_request_root_at(b: Seq<u8>, pos: int) -> Option<RequestView> {
    match spec_table_at(b, pos) {
        None => None,
        Some(t) => match (
            spec_files_field(b, t),
            spec_u64_field(b, t, REQUEST_TIMEOUT_MS as int, 0),
        ) {
            (Some(files), Some(timeout_ms)) => Some(RequestView { files, timeout_ms }),
            _ => None,
        },
    }
}

/// What the bytes of a request mean: `None` where they are no well-formed
/// request. The word at the start of the buffer points to the root table.
pub open spec fn spec_request(b: Seq<u8>) -> Option<RequestView> {
    if b.len() > MAX_ENVELOPE_SIZE {
        None
    } else {
        match spec_target(b, 0) {
            None => None,
            Some(root) => spec_request_root_at(b, root),
        }
    }
}

/// Every file's contents lie inside the buffer.
pub open spec fn contents_within(files: Seq<FileView>, b: Seq<u8>) -> bool {
    forall|i: int|
        0 <= i < files.len() ==> match (#[trigger] files[i]).contents {
            Some(span) => span.within(b),
            None => true,
        }
}

fn bytes_field(b: &[u8], t: Table, slot: usize) -> (span: Option<Option<ByteRange>>)
    requires
        b.len() <= MAX_ENVELOPE_SIZE,
        t.pos <= b.len(),
        t.vtable + t.vtable_len <= b.len(),
        slot < 0x1000,
    ensures
        span == spec_bytes_field(b@, t, slot as int),
        span matches Some(Some(s)) ==> s.within(b@),
{
    match ref_field(b, t, slot) {
        None => None,
        Some(None) => Some(None),
        Some(Some(target)) => match vector_at(b, target, 1) {
            None => None,
            Some(span) => Some(Some(span)),
        },
    }
}

fn file_at(b: &[u8], pos: u64) -> (file: Option<FileRecord>)
    requires
        b.len() <= MAX_ENVELOPE_SIZE,
    ensures
        spec_file_at(b@, pos as int) == match file {
            None => None::<FileView>,
            Some(f) => Some(f@),
        },
        file matches Some(f) ==> (f.contents matches Some(span) ==> span.within(b@)),
{
    reveal(spec_file_at);
    if pos > b.len() as u64 {
        return None;
    }
    let t = match table_at(b, pos as usize) {
        None => { return None; },
        Some(t) => t,
    };
    let ident = match u16_field(b, t, FILE_IDENT, 0) {
        None => { return None; },
        Some(v) => v,
    };
    let filename = match text_field(b, t, FILE_FILENAME) {
        None => { return None; },
        Some(None) => String::new(),
        Some(Some(text)) => text,
    };
    let contents = match bytes_field(b, t, FILE_CONTENTS) {
        None => { return None; },
        Some(v) => v,
    };
    let language = match u8_field(b, t, FILE_LANGUAGE, 0) {
        None => { return None; },
        Some(v) => v,
    };
    let flag = match u8_field(b, t, FILE_INCLUDE_INJECTIONS, 0) {
        None => { return None; },
        Some(v) => v,
    };
    Some(FileRecord { ident, filename, contents, language, include_injections: flag != 0 })
}

fn file_element(b: &[u8], elements: ByteRange, i: usize) -> (file: Option<FileRecord>)
    requires
        b.len() <= MAX_ENVELOPE_SIZE,
        elements.start + 4 * elements.len <= b.len(),
        i < elements.len,
    ensures
        spec_file_element(b@, elements, i as int) == match file {
            None => None::<FileView>,
            Some(f) => Some(f@),
        },
        file matches Some(f) ==> (f.contents matches Some(span) ==> span.within(b@)),
{
    match target(b, elements.start + 4 * i) {
        None => None,
        Some(pos) => file_at(b, pos),
    }
}

fn files_at(b: &[u8], elements: ByteRange) -> (files: Option<Vec<FileRecord>>)
    requires
        b.len() <= MAX_ENVELOPE_SIZE,
        elements.start + 4 * elements.len <= b.len(),
    ensures
        spec_files(b@, elements) == match files {
            None => None::<Seq<FileView>>,
            Some(v) => Some(file_views(v@)),
        },
        files matches Some(v) ==> contents_within(file_views(v@), b@),
{
    let mut files: Vec<FileRecord> = Vec::new();
    let mut i: usize = 0;
    while i < elements.len
        invariant
            b.len() <= MAX_ENVELOPE_SIZE,
            elements.start + 4 * elements.len <= b.len(),
            i <= elements.len,
            files.len() == i,
            forall|k: int|
                0 <= k < i ==> (#[trigger] spec_file_element(b@, elements, k)) == Some(files@[k]@),
            forall|k: int|
                0 <= k < i ==> ((#[trigger] files@[k]).contents matches Some(span)
                    ==> span.within(b@)),
        decreases elements.len - i,
    {
        match file_element(b, elements, i) {
            None => {
                return None;
            },
            Some(file) => {
                files.push(file);
            },
        }
        i += 1;
    }
    assert(file_views(files@) =~= Seq::new(
        elements.len as nat,
        |i: int| spec_file_element(b@, elements, i).unwrap(),
    ));
    Some(files)
}

/// Decodes a request. The answer is `None` exactly where the bytes are no
/// well-formed request; otherwise it is what the bytes mean, and every
/// file's contents lie inside the buffer.
pub fn decode_request(body: &[u8]) -> (request: Option<DecodedRequest>)
    ensures
        spec_request(body@) == match request {
            None => None::<RequestView>,
            Some(r) => Some(r@),
        },
        request matches Some(r) ==> contents_within(r@.files, body@),
{
    if body.len() > MAX_ENVELOPE_SIZE {
        return None;
    }
    let root = match target(body, 0) {
        None => { return None; },
        Some(root) => root,
    };
    if root > body.len() as u64 {
        return None;
    }
    let t = match table_at(body, root as usize) {
        None => { return None; },
        Some(t) => t,
    };
    let files = match ref_field(body, t, REQUEST_FILES) {
        None => { return None; },
        Some(None) => Vec::new(),
        Some(Some(at)) => match vector_at(body, at, 4) {
            None => { return None; },
            Some(elements) => {
                if elements.len >= MAX_TABLES {
                    return None;
                }
                match files_at(body, elements) {
                    None => { return None; },
                    Some(files) => files,
                }
            },
        },
    };
    let timeout_ms = match u64_field(body, t, REQUEST_TIMEOUT_MS, 0) {
        None => { return None; },
        Some(v) => v,
    };
    assert(file_views(Seq::<FileRecord>::empty()) =~= Seq::<FileView>::empty());
    Some(DecodedRequest { files, timeout_ms })
}

} // verus!
