use daylight::client::{Request, Response};
use daylight::envelope::html::{decode_html_response, encode_html_response, HtmlDocument};
use daylight::envelope::request::decode_request;
use daylight::envelope::spans::{
    decode_spans_response, encode_spans_response, SpanEntry, SpansDocument,
};
use daylight::languages::Language;
use flatbuffers::{
    FlatBufferBuilder, ForwardsUOffset, InvalidFlatbuffer, Verifiable, Verifier, VerifierOptions,
    Vector,
};

// The layout of the envelopes, told to the verifier of the `flatbuffers` crate.

struct FileTable;

impl Verifiable for FileTable {
    fn run_verifier(v: &mut Verifier, pos: usize) -> Result<(), InvalidFlatbuffer> {
        v.visit_table(pos)?
            .visit_field::<u16>("ident", 4, false)?
            .visit_field::<ForwardsUOffset<&str>>("filename", 6, false)?
            .visit_field::<ForwardsUOffset<Vector<'_, u8>>>("contents", 8, false)?
            .visit_field::<u8>("language", 12, false)?
            .visit_field::<bool>("include_injections", 14, false)?
            .finish();
        Ok(())
    }
}

struct RequestTable;

impl Verifiable for RequestTable {
    fn run_verifier(v: &mut Verifier, pos: usize) -> Result<(), InvalidFlatbuffer> {
        v.visit_table(pos)?
            .visit_field::<ForwardsUOffset<Vector<'_, ForwardsUOffset<FileTable>>>>(
                "files",
                4,
                false,
            )?
            .visit_field::<u64>("timeout_ms", 6, false)?
            .finish();
        Ok(())
    }
}

struct HtmlDocumentTable;

impl Verifiable for HtmlDocumentTable {
    fn run_verifier(v: &mut Verifier, pos: usize) -> Result<(), InvalidFlatbuffer> {
        v.visit_table(pos)?
            .visit_field::<u16>("ident", 4, false)?
            .visit_field::<ForwardsUOffset<&str>>("filename", 6, false)?
            .visit_field::<u8>("language", 8, false)?
            .visit_field::<ForwardsUOffset<Vector<'_, ForwardsUOffset<&str>>>>("lines", 10, false)?
            .visit_field::<u8>("error_code", 12, false)?
            .finish();
        Ok(())
    }
}

struct HtmlResponseTable;

impl Verifiable for HtmlResponseTable {
    fn run_verifier(v: &mut Verifier, pos: usize) -> Result<(), InvalidFlatbuffer> {
        v.visit_table(pos)?
            .visit_field::<ForwardsUOffset<Vector<'_, ForwardsUOffset<HtmlDocumentTable>>>>(
                "documents",
                4,
                false,
            )?
            .finish();
        Ok(())
    }
}

struct SpanTable;

impl Verifiable for SpanTable {
    fn run_verifier(v: &mut Verifier, pos: usize) -> Result<(), InvalidFlatbuffer> {
        v.visit_table(pos)?
            .visit_field::<u16>("index", 4, false)?
            .visit_field::<u64>("start", 6, false)?
            .visit_field::<u64>("end", 8, false)?
            .finish();
        Ok(())
    }
}

struct SpansDocumentTable;

impl Verifiable for SpansDocumentTable {
    fn run_verifier(v: &mut Verifier, pos: usize) -> Result<(), InvalidFlatbuffer> {
        v.visit_table(pos)?
            .visit_field::<u16>("ident", 4, false)?
            .visit_field::<ForwardsUOffset<&str>>("filename", 6, false)?
            .visit_field::<u8>("language", 8, false)?
            .visit_field::<ForwardsUOffset<Vector<'_, ForwardsUOffset<SpanTable>>>>(
                "spans",
                10,
                false,
            )?
            .visit_field::<u8>("error_code", 12, false)?
            .finish();
        Ok(())
    }
}

struct SpansResponseTable;

impl Verifiable for SpansResponseTable {
    fn run_verifier(v: &mut Verifier, pos: usize) -> Result<(), InvalidFlatbuffer> {
        v.visit_table(pos)?
            .visit_field::<ForwardsUOffset<Vector<'_, ForwardsUOffset<SpansDocumentTable>>>>(
                "documents",
                4,
                false,
            )?
            .visit_field::<ForwardsUOffset<Vector<'_, ForwardsUOffset<&str>>>>(
                "highlight_names",
                6,
                false,
            )?
            .finish();
        Ok(())
    }
}

fn flatbuffers_accepts<T: Verifiable>(bytes: &[u8]) -> bool {
    let options = VerifierOptions::default();
    let mut verifier = Verifier::new(&options, bytes);
    <ForwardsUOffset<T>>::run_verifier(&mut verifier, 0).is_ok()
}

/// A request as the `flatbuffers` builder writes it.
fn flatbuffers_request(
    files: &[(u16, Option<&str>, Option<&[u8]>, u8, bool)],
    timeout_ms: u64,
) -> Vec<u8> {
    let mut builder = FlatBufferBuilder::new();
    let mut tables = Vec::new();
    for (ident, filename, contents, language, injections) in files {
        let filename = filename.map(|f| builder.create_string(f));
        let contents = contents.map(|c| builder.create_vector(c));
        let start = builder.start_table();
        builder.push_slot::<u16>(4, *ident, 0);
        if let Some(filename) = filename {
            builder.push_slot_always(6, filename);
        }
        if let Some(contents) = contents {
            builder.push_slot_always(8, contents);
        }
        builder.push_slot::<u8>(12, *language, 0);
        builder.push_slot::<bool>(14, *injections, false);
        tables.push(builder.end_table(start));
    }
    let files = builder.create_vector(&tables);
    let start = builder.start_table();
    builder.push_slot_always(4, files);
    builder.push_slot::<u64>(6, timeout_ms, 0);
    let root = builder.end_table(start);
    builder.finish(root, None);
    builder.finished_data().to_vec()
}

#[test]
fn decodes_a_request_of_the_flatbuffers_builder() {
    let bytes = flatbuffers_request(
        &[
            (7, Some("a.c"), Some(b"int x;"), 3, true),
            (9, None, None, 0, false),
            (65535, Some("näme.rs"), Some(b""), 13, false),
        ],
        1500,
    );
    assert!(flatbuffers_accepts::<RequestTable>(&bytes));
    let request = decode_request(&bytes).unwrap();
    assert_eq!(request.timeout_ms, 1500);
    assert_eq!(request.files.len(), 3);

    let first = &request.files[0];
    assert_eq!(first.ident, 7);
    assert_eq!(first.filename, "a.c");
    assert_eq!(first.language, 3);
    assert!(first.include_injections);
    let range = first.contents.unwrap();
    assert_eq!(&bytes[range.start..range.start + range.len], b"int x;");

    let second = &request.files[1];
    assert_eq!(second.ident, 9);
    assert_eq!(second.filename, "");
    assert_eq!(second.language, 0);
    assert!(!second.include_injections);
    assert!(second.contents.is_none());

    let third = &request.files[2];
    assert_eq!(third.ident, 65535);
    assert_eq!(third.filename, "näme.rs");
    assert_eq!(third.language, 13);
    assert_eq!(third.contents.unwrap().len, 0);
}

#[test]
fn decodes_a_request_without_files() {
    let bytes = flatbuffers_request(&[], 0);
    let request = decode_request(&bytes).unwrap();
    assert_eq!(request.files.len(), 0);
    assert_eq!(request.timeout_ms, 0);
}

#[test]
fn refuses_bytes_that_are_no_request() {
    assert!(decode_request(&[]).is_none());
    assert!(decode_request(&[1, 2, 3]).is_none());
    // The root offset leaves the buffer.
    assert!(decode_request(&[200, 0, 0, 0, 0, 0, 0, 0]).is_none());
    // The root offset is not a multiple of 4.
    assert!(decode_request(&[5, 0, 0, 0, 0, 0, 0, 0, 0, 0, 0, 0, 0, 0, 0, 0]).is_none());
    // A request cut short.
    let bytes = flatbuffers_request(&[(1, Some("a.c"), Some(b"int x;"), 3, false)], 0);
    assert!(decode_request(&bytes[..bytes.len() - 9]).is_none());
}

#[test]
fn refuses_a_file_name_that_is_no_text() {
    let mut bytes = flatbuffers_request(&[(1, Some("abcd"), None, 3, false)], 0);
    let at = bytes.windows(4).position(|w| w == b"abcd").unwrap();
    bytes[at] = 0xff;
    assert!(decode_request(&bytes).is_none());
}

#[test]
fn refuses_a_file_name_without_its_zero_byte() {
    let mut bytes = flatbuffers_request(&[(1, Some("abcd"), None, 3, false)], 0);
    let at = bytes.windows(4).position(|w| w == b"abcd").unwrap();
    assert_eq!(bytes[at + 4], 0);
    bytes[at + 4] = b'e';
    assert!(decode_request(&bytes).is_none());
}

#[test]
fn a_built_request_is_read_back() {
    let mut request = Request::new().with_timeout(250);
    request
        .add_file(3, "main.rs", Language::Rust, b"fn main() {}")
        .add_file(4, "x", Language::Unspecified, b"");
    request.add_file_with_injections(5, "page.html", Language::Html, b"<p>hi</p>", true);
    assert_eq!(request.len(), 3);
    assert_eq!(request.timeout_ms(), 250);
    let bytes = request.build_message().unwrap();
    assert!(flatbuffers_accepts::<RequestTable>(&bytes));

    let decoded = decode_request(&bytes).unwrap();
    assert_eq!(decoded.timeout_ms, 250);
    assert_eq!(decoded.files.len(), 3);
    let expected: [(u16, &str, u8, &[u8], bool); 3] = [
        (3, "main.rs", 13, b"fn main() {}", false),
        (4, "x", 0, b"", false),
        (5, "page.html", 7, b"<p>hi</p>", true),
    ];
    for (file, expected) in decoded.files.iter().zip(expected) {
        let (ident, filename, language, contents, injections) = expected;
        assert_eq!(file.ident, ident);
        assert_eq!(file.filename, filename);
        assert_eq!(file.language, language);
        assert_eq!(file.include_injections, injections);
        let range = file.contents.unwrap();
        assert_eq!(&bytes[range.start..range.start + range.len], contents);
    }
}

#[test]
fn an_empty_request_takes_forty_eight_bytes() {
    // The word that points to the root, the root table with its two
    // cells, and an empty vector of offsets.
    let bytes = Request::new().build_message().unwrap();
    assert_eq!(bytes.len(), 8 + (8 + 8 + 16) + 8);
    assert_eq!(Request::default().build_message().unwrap(), bytes);
}

fn html_document(
    ident: u16,
    filename: &str,
    lines: Option<Vec<&str>>,
    error_code: u8,
) -> HtmlDocument {
    HtmlDocument {
        ident,
        filename: filename.to_string(),
        language: 3,
        lines: lines.map(|l| l.into_iter().map(String::from).collect()),
        error_code,
    }
}

#[test]
fn a_markup_response_is_read_back() {
    let documents = vec![
        html_document(1, "a.c", Some(vec!["<span class=\"type\">int</span> x;\n", "\n"]), 0),
        html_document(2, "", None, 2),
        html_document(3, "empty", Some(vec![]), 0),
    ];
    let bytes = encode_html_response(&documents).unwrap();
    assert!(flatbuffers_accepts::<HtmlResponseTable>(&bytes));
    let decoded = decode_html_response(&bytes).unwrap();
    assert_eq!(decoded.len(), 3);
    for (read, written) in decoded.iter().zip(documents.iter()) {
        assert_eq!(read.ident, written.ident);
        assert_eq!(read.filename, written.filename);
        assert_eq!(read.language, written.language);
        assert_eq!(read.lines, written.lines);
        assert_eq!(read.error_code, written.error_code);
    }
}

#[test]
fn a_markup_response_without_documents_takes_forty_bytes() {
    let documents: Vec<HtmlDocument> = Vec::new();
    let bytes = encode_html_response(&documents).unwrap();
    // The word that points to the root, the root table with its one cell,
    // and an empty vector of offsets.
    assert_eq!(bytes.len(), 8 + (8 + 8 + 8) + 8);
    assert!(decode_html_response(&bytes).unwrap().is_empty());
}

#[test]
fn the_size_of_a_markup_response_is_the_sum_of_its_blocks() {
    // File name "ab": 4 + 2 + 1 bytes, rounded to 8. One line "xyz": 8.
    // The vector of one offset: 8. The table of the document: 16 + 8 + 40.
    let documents = vec![html_document(1, "ab", Some(vec!["xyz"]), 0)];
    let bytes = encode_html_response(&documents).unwrap();
    let document = 8 + (8 + 8) + (16 + 8 + 40);
    assert_eq!(bytes.len(), document + 8 + (8 + 8 + 8) + 8);
}

#[test]
fn a_spans_response_is_read_back() {
    let documents = vec![
        SpansDocument {
            ident: 10,
            filename: "a.c".to_string(),
            language: 3,
            spans: Some(vec![
                SpanEntry { index: 21, start: 0, end: 3 },
                SpanEntry { index: 65535, start: 1 << 40, end: u64::MAX },
            ]),
            error_code: 0,
        },
        SpansDocument {
            ident: 11,
            filename: "b".to_string(),
            language: 0,
            spans: None,
            error_code: 1,
        },
    ];
    let names = vec![String::from("attribute"), String::from("comment")];
    let bytes = encode_spans_response(&documents, &names).unwrap();
    assert!(flatbuffers_accepts::<SpansResponseTable>(&bytes));
    let decoded = decode_spans_response(&bytes).unwrap();
    assert_eq!(decoded.highlight_names, names);
    assert_eq!(decoded.documents.len(), 2);
    for (read, written) in decoded.documents.iter().zip(documents.iter()) {
        assert_eq!(read.ident, written.ident);
        assert_eq!(read.filename, written.filename);
        assert_eq!(read.language, written.language);
        assert_eq!(read.spans, written.spans);
        assert_eq!(read.error_code, written.error_code);
    }
}

#[test]
fn refuses_bytes_that_are_no_response() {
    assert!(decode_html_response(&[]).is_none());
    assert!(decode_spans_response(&[0, 0, 0]).is_none());
    let documents = vec![html_document(1, "a.c", Some(vec!["x"]), 0)];
    let bytes = encode_html_response(&documents).unwrap();
    assert!(decode_html_response(&bytes[..bytes.len() - 8]).is_none());
}

/// The numbers of a linear congruential generator.
fn next(state: &mut u64) -> u64 {
    *state = state.wrapping_mul(6364136223846793005).wrapping_add(1442695040888963407);
    *state >> 33
}

/// Changes up to three bytes of a buffer, or cuts it short.
fn damaged(bytes: &[u8], state: &mut u64) -> Vec<u8> {
    let mut bytes = bytes.to_vec();
    let changes = 1 + next(state) % 3;
    for _ in 0..changes {
        let at = (next(state) as usize) % bytes.len();
        bytes[at] = match next(state) % 4 {
            0 => 0,
            1 => bytes[at].wrapping_add(1),
            2 => bytes[at] ^ (1 << (next(state) % 8)),
            _ => next(state) as u8,
        };
    }
    if next(state) % 8 == 0 {
        let len = (next(state) as usize) % (bytes.len() + 1);
        bytes.truncate(len);
    }
    bytes
}

#[test]
fn damaged_requests_are_judged_as_flatbuffers_judges_them() {
    let request = flatbuffers_request(
        &[
            (7, Some("a.c"), Some(b"int x;"), 3, true),
            (9, None, None, 0, false),
            (2, Some("b.rs"), Some(b"fn main() {}"), 0, false),
        ],
        1500,
    );
    let mut built = Request::new().with_timeout(3);
    built.add_file(1, "main.go", Language::Go, b"package main");
    built.add_file_with_injections(2, "", Language::Unspecified, b"", true);
    let built = built.build_message().unwrap();

    let mut state = 1;
    let mut accepted = 0;
    for round in 0..40_000 {
        let whole = if round % 2 == 0 { &request } else { &built };
        let bytes = damaged(whole, &mut state);
        let ours = decode_request(&bytes).is_some();
        let theirs = flatbuffers_accepts::<RequestTable>(&bytes);
        assert_eq!(ours, theirs, "round {}: {:?}", round, bytes);
        if ours {
            accepted += 1;
        }
    }
    // Both kinds of buffers were met.
    assert!(accepted > 1000);
    assert!(accepted < 39_000);
}

#[test]
fn damaged_responses_are_judged_as_flatbuffers_judges_them() {
    let html = encode_html_response(&vec![
        html_document(1, "a.c", Some(vec!["<span class=\"type\">int</span> x;\n", "\n"]), 0),
        html_document(2, "", None, 2),
    ])
    .unwrap();
    let spans = encode_spans_response(
        &vec![SpansDocument {
            ident: 10,
            filename: "a.c".to_string(),
            language: 3,
            spans: Some(vec![SpanEntry { index: 21, start: 0, end: 3 }]),
            error_code: 0,
        }],
        &vec![String::from("attribute"), String::from("comment")],
    )
    .unwrap();

    let mut state = 2;
    let mut accepted = 0;
    for round in 0..20_000 {
        let bytes = damaged(&html, &mut state);
        let ours = decode_html_response(&bytes).is_some();
        let theirs = flatbuffers_accepts::<HtmlResponseTable>(&bytes);
        assert_eq!(ours, theirs, "{}: {:?}", round, bytes);
        let bytes = damaged(&spans, &mut state);
        let ours = decode_spans_response(&bytes).is_some();
        let theirs = flatbuffers_accepts::<SpansResponseTable>(&bytes);
        assert_eq!(ours, theirs, "{}: {:?}", round, bytes);
        if ours {
            accepted += 1;
        }
    }
    assert!(accepted > 500);
}

#[test]
fn the_size_of_a_spans_response_is_the_sum_of_its_blocks() {
    // The empty file name: 8. One span: 48, and the vector of its offset:
    // 8. The table of the document: 16 + 8 + 40.
    let document = 8 + (48 + 8) + (16 + 8 + 40);
    let documents = vec![SpansDocument {
        ident: 1,
        filename: String::new(),
        language: 0,
        spans: Some(vec![SpanEntry { index: 0, start: 0, end: 1 }]),
        error_code: 0,
    }];
    let bytes = encode_spans_response(&documents, &Vec::new()).unwrap();
    // The vector of the documents: 8. No highlight names: 8. The root
    // table with its two cells: 8 + 8 + 16. The word that points to it: 8.
    assert_eq!(bytes.len(), document + 8 + 8 + (8 + 8 + 16) + 8);
    assert_eq!(bytes.len(), 184);
}

#[test]
fn a_client_reads_the_documents_and_the_failures() {
    let documents = vec![
        html_document(1, "a.c", Some(vec!["x\n"]), 0),
        html_document(2, "b", None, 2),
        html_document(3, "c.c", None, 0),
        html_document(4, "d.c", None, 1),
    ];
    let bytes = encode_html_response(&documents).unwrap();
    let response = Response::new(&bytes).unwrap();
    let idents: Vec<u16> = response.documents().iter().map(|d| d.ident).collect();
    assert_eq!(idents, vec![1, 2, 3, 4]);
    let failures: Vec<(u16, u8)> =
        response.failures().iter().map(|d| (d.ident, d.error_code)).collect();
    assert_eq!(failures, vec![(2, 2), (4, 1)]);
    assert!(Response::new(&[1, 2, 3]).is_none());
}

/// A request whose vector of files refers `count` times to one file.
fn request_of_one_file(count: usize) -> Vec<u8> {
    let mut builder = FlatBufferBuilder::new();
    let start = builder.start_table();
    builder.push_slot::<u16>(4, 9, 0);
    let file = builder.end_table(start);
    let files = builder.create_vector(&vec![file; count]);
    let start = builder.start_table();
    builder.push_slot_always(4, files);
    let root = builder.end_table(start);
    builder.finish(root, None);
    builder.finished_data().to_vec()
}

#[test]
fn a_request_of_a_million_tables_is_the_largest() {
    let bytes = request_of_one_file(999_999);
    assert!(flatbuffers_accepts::<RequestTable>(&bytes));
    let request = decode_request(&bytes).unwrap();
    assert_eq!(request.files.len(), 999_999);
    assert!(request.files.iter().all(|f| f.ident == 9));

    let bytes = request_of_one_file(1_000_000);
    assert!(!flatbuffers_accepts::<RequestTable>(&bytes));
    assert!(decode_request(&bytes).is_none());
}

#[test]
fn a_request_of_too_many_files_is_not_built() {
    let mut request = Request::new();
    for _ in 0..1_000_000 {
        request.add_file(1, "", Language::C, b"");
    }
    assert_eq!(request.len(), 1_000_000);
    assert!(request.build_message().is_none());
}
