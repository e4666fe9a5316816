//! Writing a request envelope, and what a request means apart from where
//! its bytes lie.
//!
//! The decoder of requests answers with the places of the contents in the
//! buffer. The values here hold the contents themselves, so that a request
//! that was written can be compared with the request that is read back.

use vstd::prelude::*;
use vstd::utf8::encode_utf8;
use crate::envelope::read::{
    spec_ref_field, spec_table_at, spec_target, spec_vector_at, ByteRange, MAX_ENVELOPE_SIZE,
};
use crate::envelope::request::{
    spec_file_at, spec_file_element, spec_files, spec_request, spec_request_root_at, FileView,
    RequestView, FILE_CONTENTS, FILE_FILENAME, FILE_IDENT, FILE_INCLUDE_INJECTIONS, FILE_LANGUAGE,
    MAX_TABLES, REQUEST_FILES, REQUEST_TIMEOUT_MS,
};
use crate::envelope::shift::{
    extends, lemma_extends_trans, lemma_shift_range, lemma_shift_ref_field, lemma_shift_table,
    lemma_shift_target, lemma_shift_u16_field, lemma_shift_u64_field, lemma_shift_u8_field,
    lemma_shift_vector, moved_range,
};
use crate::envelope::text::{lemma_shift_text, lemma_shift_text_field, put_text, spec_text_at};
use crate::envelope::write::{
    bytes_size, cell_holds, offsets_size, string_size, table_size, Cell, Writer,
};

verus! {

/// One file of a request, with its contents.
pub struct FileValue {
    pub ident: u16,
    pub filename: Seq<char>,
    pub contents: Option<Seq<u8>>,
    pub language: u8,
    pub include_injections: bool,
}

/// A request, with the contents of its files.
pub struct RequestValue {
    pub files: Seq<FileValue>,
    pub timeout_ms: u64,
}

/// A decoded file with its contents taken out of the buffer.
pub open spec fn file_value(f: FileView, b: Seq<u8>) -> FileValue {
    FileValue {
        ident: f.ident,
        filename: f.filename,
        contents: match f.contents {
            Some(range) => Some(range.of(b)),
            None => None,
        },
        language: f.language,
        include_injections: f.include_injections,
    }
}

/// A decoded request with the contents of its files taken out of the
/// buffer.
pub open spec fn request_value(r: RequestView, b: Seq<u8>) -> RequestValue {
    RequestValue {
        files: Seq::new(r.files.len(), |i: int| file_value(r.files[i], b)),
        timeout_ms: r.timeout_ms,
    }
}

/// What the bytes of a request mean, with the contents of the files.
pub open spec fn spec_request_value(b: Seq<u8>) -> Option<RequestValue> {
    match spec_request(b) {
        Some(r) => Some(request_value(r, b)),
        None => None,
    }
}

/// The file whose table starts at `pos`, with its contents.
pub open spec fn spec_file_value_at(b: Seq<u8>, pos: int) -> Option<FileValue> {
    match spec_file_at(b, pos) {
        Some(f) => Some(file_value(f, b)),
        None => None,
    }
}

/// The files of the vector that starts at `pos`, with their contents.
pub open spec fn spec_file_values_at(b: Seq<u8>, pos: int) -> Option<Seq<FileValue>> {
    match spec_vector_at(b, pos, 4) {
        None => None,
        Some(elements) => match spec_files(b, elements) {
            None => None,
            Some(files) => Some(Seq::new(files.len(), |i: int| file_value(files[i], b))),
        },
    }
}

/// The request whose root table starts at `pos`, with the contents of its
/// files.
pub open spec fn spec_request_value_root_at(b: Seq<u8>, pos: int) -> Option<RequestValue> {
    match spec_request_root_at(b, pos) {
        Some(r) => Some(request_value(r, b)),
        None => None,
    }
}

/// The bytes that a file takes in an envelope.
pub open spec fn file_size(v: FileValue) -> int {
    string_size(encode_utf8(v.filename).len() as int) + (match v.contents {
        Some(contents) => bytes_size(contents.len() as int),
        None => 0,
    }) + table_size(6)
}

/// The bytes that the first `n` files take.
pub open spec fn files_size_upto(files: Seq<FileValue>, n: int) -> int
    decreases n,
{
    if n <= 0 {
        0
    } else {
        files_size_upto(files, n - 1) + file_size(files[n - 1])
    }
}

/// The length of the envelope of a request.
pub open spec fn request_size(r: RequestValue) -> int {
    files_size_upto(r.files, r.files.len() as int) + offsets_size(r.files.len() as int)
        + table_size(2) + 8
}

pub proof fn lemma_files_size_grows(files: Seq<FileValue>, i: int, n: int)
    requires
        0 <= i <= n,
    ensures
        0 <= files_size_upto(files, i) <= files_size_upto(files, n),
    decreases n,
{
    if n > 0 {
        if i < n {
            lemma_files_size_grows(files, i, n - 1);
        } else {
            lemma_files_size_grows(files, i - 1, n - 1);
        }
    }
}

pub proof fn lemma_shift_file_value(new: Seq<u8>, old: Seq<u8>, pos: int)
    requires
        extends(new, old),
        new.len() <= usize::MAX,
        spec_file_value_at(old, pos) is Some,
    ensures
        spec_file_value_at(new, pos + (new.len() - old.len())) == spec_file_value_at(old, pos),
{
    reveal(spec_file_at);
    lemma_shift_table(new, old, pos);
    let t = spec_table_at(old, pos).unwrap();
    lemma_shift_u16_field(new, old, t, FILE_IDENT as int, 0);
    lemma_shift_text_field(new, old, t, FILE_FILENAME as int);
    lemma_shift_ref_field(new, old, t, FILE_CONTENTS as int);
    match spec_ref_field(old, t, FILE_CONTENTS as int).unwrap() {
        None => {},
        Some(target) => {
            lemma_shift_vector(new, old, target, 1);
            lemma_shift_range(new, old, spec_vector_at(old, target, 1).unwrap());
        },
    }
    lemma_shift_u8_field(new, old, t, FILE_LANGUAGE as int, 0);
    lemma_shift_u8_field(new, old, t, FILE_INCLUDE_INJECTIONS as int, 0);
}

pub proof fn lemma_shift_file_values_at(new: Seq<u8>, old: Seq<u8>, pos: int)
    requires
        extends(new, old),
        new.len() <= usize::MAX,
        spec_file_values_at(old, pos) is Some,
    ensures
        spec_file_values_at(new, pos + (new.len() - old.len())) == spec_file_values_at(old, pos),
{
    let k = new.len() - old.len();
    lemma_shift_vector(new, old, pos, 4);
    let elements = spec_vector_at(old, pos, 4).unwrap();
    let moved = moved_range(elements, k);
    assert forall|i: int| 0 <= i < elements.len implies (#[trigger] spec_file_element(
        new,
        moved,
        i,
    )) is Some && file_value(spec_file_element(new, moved, i).unwrap(), new) == file_value(
        spec_file_element(old, elements, i).unwrap(),
        old,
    ) by {
        assert(spec_file_element(old, elements, i) is Some);
        lemma_shift_target(new, old, elements.start + 4 * i);
        lemma_shift_file_value(new, old, spec_target(old, elements.start + 4 * i).unwrap());
    }
    assert(spec_file_values_at(new, pos + k).unwrap() =~= spec_file_values_at(old, pos).unwrap());
}

pub proof fn lemma_shift_request_value_root(new: Seq<u8>, old: Seq<u8>, pos: int)
    requires
        extends(new, old),
        new.len() <= usize::MAX,
        spec_request_value_root_at(old, pos) is Some,
    ensures
        spec_request_value_root_at(new, pos + (new.len() - old.len()))
            == spec_request_value_root_at(old, pos),
{
    lemma_shift_table(new, old, pos);
    let t = spec_table_at(old, pos).unwrap();
    lemma_shift_ref_field(new, old, t, REQUEST_FILES as int);
    lemma_shift_u64_field(new, old, t, REQUEST_TIMEOUT_MS as int, 0);
    match spec_ref_field(old, t, REQUEST_FILES as int).unwrap() {
        None => {},
        Some(target) => {
            lemma_shift_file_values_at(new, old, target);
        },
    }
    assert(spec_request_value_root_at(new, pos + (new.len() - old.len())).unwrap().files
        =~= spec_request_value_root_at(old, pos).unwrap().files);
}

/// A table whose cells hold the parts of a file is that file.
proof fn lemma_file_assembled(
    b: Seq<u8>,
    pos: int,
    cells: Seq<Cell>,
    name_at: usize,
    value: FileValue,
)
    requires
        b.len() <= MAX_ENVELOPE_SIZE,
        spec_table_at(b, pos) is Some,
        cells.len() == 6,
        cells[0] == Cell::Short(value.ident),
        cells[1] == Cell::Ref(name_at),
        cells[2] is Ref,
        cells[3] is Absent,
        cells[4] == Cell::Byte(value.language),
        cells[5] == Cell::Byte(if value.include_injections { 1u8 } else { 0u8 }),
        forall|k: int|
            0 <= k < 6 ==> #[trigger] cell_holds(b, spec_table_at(b, pos).unwrap(), k, cells[k]),
        spec_text_at(b, b.len() - name_at) == Some(value.filename),
        value.contents is Some,
        cells[2] matches Cell::Ref(d) ==> (spec_vector_at(b, b.len() - d, 1) matches Some(range)
            && range.of(b) == value.contents.unwrap()),
    ensures
        spec_file_value_at(b, pos) == Some(value),
{
    reveal(spec_file_at);
    let t = spec_table_at(b, pos).unwrap();
    assert(cell_holds(b, t, 0, cells[0]));
    assert(cell_holds(b, t, 1, cells[1]));
    assert(cell_holds(b, t, 2, cells[2]));
    assert(cell_holds(b, t, 3, cells[3]));
    assert(cell_holds(b, t, 4, cells[4]));
    assert(cell_holds(b, t, 5, cells[5]));
}

/// Writes a file: its name, its contents, then its table. `at` is the
/// distance from the end of the buffer at which the table then starts.
pub fn put_file(
    w: &mut Writer,
    ident: u16,
    filename: &str,
    contents: &[u8],
    language: u8,
    include_injections: bool,
) -> (at: Option<usize>)
    requires
        old(w).wf(),
    ensures
        ({
            let value = FileValue {
                ident,
                filename: filename@,
                contents: Some(contents@),
                language,
                include_injections,
            };
            match at {
                Some(d) => {
                    &&& final(w).wf()
                    &&& extends(final(w)@, old(w)@)
                    &&& final(w)@.len() == old(w)@.len() + file_size(value)
                    &&& d <= final(w)@.len()
                    &&& spec_file_value_at(final(w)@, final(w)@.len() - d) == Some(value)
                },
                None => old(w)@.len() + file_size(value) > MAX_ENVELOPE_SIZE,
            }
        }),
{
    let ghost start = w@;
    let ghost value = FileValue {
        ident,
        filename: filename@,
        contents: Some(contents@),
        language,
        include_injections,
    };
    let name_at = match put_text(w, filename) {
        None => { return None; },
        Some(d) => d,
    };
    let ghost named = w@;
    let contents_at = match w.put_bytes(contents) {
        None => { return None; },
        Some(d) => d,
    };
    let ghost filled = w@;
    proof {
        lemma_extends_trans(filled, named, start);
    }
    let mut cells: Vec<Cell> = Vec::new();
    cells.push(Cell::Short(ident));
    cells.push(Cell::Ref(name_at));
    cells.push(Cell::Ref(contents_at));
    cells.push(Cell::Absent);
    cells.push(Cell::Byte(language));
    cells.push(Cell::Byte(if include_injections { 1 } else { 0 }));
    let at = match w.put_table(&cells) {
        None => { return None; },
        Some(d) => d,
    };
    proof {
        let b = w@;
        lemma_extends_trans(b, filled, named);
        lemma_extends_trans(b, filled, start);
        lemma_shift_text(b, named, named.len() - name_at);
        lemma_shift_vector(b, filled, filled.len() - contents_at, 1);
        lemma_shift_range(b, filled, spec_vector_at(filled, 0, 1).unwrap());
        lemma_file_assembled(b, b.len() - at, cells@, name_at, value);
    }
    Some(at)
}

/// A vector whose offsets point to the files is the vector of the files.
pub proof fn lemma_files_assembled(
    b: Seq<u8>,
    old: Seq<u8>,
    places: Seq<usize>,
    values: Seq<FileValue>,
)
    requires
        extends(b, old),
        b.len() <= MAX_ENVELOPE_SIZE,
        places.len() == values.len(),
        places.len() <= MAX_ENVELOPE_SIZE,
        spec_vector_at(b, 0, 4) == Some(ByteRange { start: 4, len: places.len() as usize }),
        forall|i: int|
            0 <= i < places.len() ==> #[trigger] spec_target(b, 4 + 4 * i) == Some(
                b.len() - places[i],
            ),
        forall|k: int|
            0 <= k < places.len() ==> spec_file_value_at(old, old.len() - #[trigger] places[k])
                == Some(values[k]),
    ensures
        spec_file_values_at(b, 0) == Some(values),
{
    let elements = ByteRange { start: 4, len: places.len() as usize };
    assert forall|k: int| 0 <= k < elements.len implies (#[trigger] spec_file_element(
        b,
        elements,
        k,
    )) is Some && file_value(spec_file_element(b, elements, k).unwrap(), b) == values[k] by {
        assert(spec_target(b, 4 + 4 * k) == Some(b.len() - places[k]));
        lemma_shift_file_value(b, old, old.len() - places[k]);
    }
    assert(spec_file_values_at(b, 0).unwrap() =~= values);
}

/// A root table whose cells hold the vector of the files and the deadline
/// is the request.
pub proof fn lemma_request_assembled(
    b: Seq<u8>,
    pos: int,
    cells: Seq<Cell>,
    files_at: usize,
    value: RequestValue,
)
    requires
        b.len() <= MAX_ENVELOPE_SIZE,
        spec_table_at(b, pos) is Some,
        cells.len() == 2,
        cells[0] == Cell::Ref(files_at),
        cells[1] == Cell::Long(value.timeout_ms),
        forall|k: int|
            0 <= k < 2 ==> #[trigger] cell_holds(b, spec_table_at(b, pos).unwrap(), k, cells[k]),
        spec_file_values_at(b, b.len() - files_at) == Some(value.files),
        value.files.len() + 1 <= MAX_TABLES,
    ensures
        spec_request_value_root_at(b, pos) == Some(value),
{
    let t = spec_table_at(b, pos).unwrap();
    assert(cell_holds(b, t, 0, cells[0]));
    assert(cell_holds(b, t, 1, cells[1]));
    assert(spec_request_value_root_at(b, pos).unwrap().files =~= value.files);
}

} // verus!
