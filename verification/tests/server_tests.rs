use daylight::client::Request;
use daylight::envelope::html::{decode_html_response, HtmlDocument};
use daylight::envelope::spans::{decode_spans_response, SpansResponse};
use daylight::errors::{ErrorCode, FatalError, OK};
use daylight::highlight::{Config, Registry, WorkerState};
use daylight::languages::Language;
use daylight::processors::html::HtmlProcessor;
use daylight::processors::spans::SpansProcessor;
use daylight::processors::{Outcome, Processor};
use daylight::envelope::html::encode_html_response;
use daylight::envelope::request::decode_request;
use daylight::server::{generic_handler, CancellationToken, Server};
use flatbuffers::FlatBufferBuilder;
use tree_sitter_highlight::HighlightConfiguration;

fn state() -> Server {
    Server { default_per_file_timeout_ms: 30 * 1000, max_per_file_timeout_ms: 60 * 1000 }
}

fn registry() -> Registry {
    let mut registry = Registry::new();
    let c = HighlightConfiguration::new(
        tree_sitter_c::LANGUAGE.into(),
        "c",
        tree_sitter_c::HIGHLIGHT_QUERY,
        "",
        "",
    )
    .unwrap();
    registry.register(Config::new(Language::C, c));
    let bash = HighlightConfiguration::new(
        tree_sitter_bash::LANGUAGE.into(),
        "bash",
        tree_sitter_bash::HIGHLIGHT_QUERY,
        "",
        "",
    )
    .unwrap();
    registry.register(Config::new(Language::Bash, bash));
    registry
}

// Helper to create a request with given files, as the `flatbuffers` builder
// writes it.
fn build_request(files: Vec<(u16, &str, &str, Language)>, timeout_ms: u64) -> Vec<u8> {
    let mut builder = FlatBufferBuilder::with_capacity(4096);
    let mut tables = Vec::new();
    for (ident, filename, contents, language) in &files {
        let filename = builder.create_string(filename);
        let contents = builder.create_vector(contents.as_bytes());
        let start = builder.start_table();
        builder.push_slot::<u16>(4, *ident, 0);
        builder.push_slot_always(6, filename);
        builder.push_slot_always(8, contents);
        builder.push_slot::<u8>(12, language.tag(), 0);
        tables.push(builder.end_table(start));
    }
    let files = builder.create_vector(&tables);
    let start = builder.start_table();
    builder.push_slot_always(4, files);
    builder.push_slot::<u64>(6, timeout_ms, 0);
    let root = builder.end_table(start);
    builder.finish(root, None);
    builder.finished_data().to_vec()
}

/// Answers a request as the server does, on this thread.
fn handle<P: Processor>(state: &Server, body: Vec<u8>) -> Result<(u16, Vec<u8>), FatalError> {
    let registry = registry();
    let token = CancellationToken::new();
    let mut worker = WorkerState::new();
    let body = bytes::Bytes::from(body);
    let bytes = generic_handler::<P>(state, &registry, &mut worker, &token, &body)?;
    Ok((OK, bytes))
}

fn html_handler(state: &Server, body: Vec<u8>) -> Result<(u16, Vec<HtmlDocument>), FatalError> {
    let (status, bytes) = handle::<HtmlProcessor>(state, body)?;
    Ok((status, decode_html_response(&bytes).unwrap()))
}

fn spans_handler(state: &Server, body: Vec<u8>) -> Result<(u16, SpansResponse), FatalError> {
    let (status, bytes) = handle::<SpansProcessor>(state, body)?;
    Ok((status, decode_spans_response(&bytes).unwrap()))
}

#[test]
fn test_empty_request() {
    let request_bytes = build_request(vec![], 0);
    let (status, documents) = html_handler(&state(), request_bytes).unwrap();

    assert_eq!(status, 200);
    assert!(documents.is_empty());
}

#[test]
fn test_single_c_file() {
    let c_code = r#"
#include <stdio.h>
int main() {
    printf("Hello, World!\n");
    return 0;
}
"#;

    let request_bytes = build_request(vec![(0, "test.c", c_code, Language::C)], 0);
    let (status, docs) = html_handler(&state(), request_bytes).unwrap();

    assert_eq!(status, 200);
    assert_eq!(docs.len(), 1);

    let doc = &docs[0];
    assert_eq!(doc.ident, 0);
    assert_eq!(doc.error_code, ErrorCode::NoError.tag());
    assert!(doc.lines.is_some());
    assert!(doc.lines.as_ref().unwrap().len() > 0);
}

#[test]
fn test_empty_file_contents() {
    let request_bytes = build_request(vec![(0, "empty.c", "", Language::C)], 0);
    let (status, docs) = html_handler(&state(), request_bytes).unwrap();

    assert_eq!(status, 200);
    assert_eq!(docs.len(), 1);
    let doc = &docs[0];
    assert_eq!(doc.error_code, ErrorCode::NoError.tag());
    assert!(doc.lines.is_none());
}

#[test]
fn test_multiple_files_concurrently() {
    let files = vec![
        (0, "test1.c", "int main() { return 0; }", Language::C),
        (1, "test2.c", "void foo() {}", Language::C),
        (2, "test3.bash", "#!/bin/bash\necho hello", Language::Bash),
    ];

    let request_bytes = build_request(files, 0);
    let (status, docs) = html_handler(&state(), request_bytes).unwrap();

    assert_eq!(status, 200);
    assert_eq!(docs.len(), 3);

    for doc in docs.iter() {
        assert_eq!(doc.error_code, ErrorCode::NoError.tag());
        assert!(doc.lines.is_some());
    }
}

#[test]
fn test_timeout_too_large() {
    let mut builder = FlatBufferBuilder::with_capacity(1024);
    let files_vec =
        builder.create_vector::<flatbuffers::WIPOffset<flatbuffers::TableFinishedWIPOffset>>(&[]);
    let start = builder.start_table();
    builder.push_slot_always(4, files_vec);
    // 120 seconds, exceeds max of 60
    builder.push_slot::<u64>(6, 120_000, 0);
    let request = builder.end_table(start);
    builder.finish(request, None);
    let request_bytes = builder.finished_data().to_vec();

    let response = html_handler(&state(), request_bytes);

    assert!(response.is_err());
    let error = response.unwrap_err();
    assert_eq!(error, FatalError::TimeoutTooLarge(60_000));
    assert!(400 <= error.status() && error.status() < 500);
}

#[test]
fn a_single_c_file_is_detected_by_its_name() {
    let request_bytes =
        build_request(vec![(0, "t.c", "int main(){return 0;}", Language::Unspecified)], 0);
    let (status, docs) = html_handler(&state(), request_bytes).unwrap();
    assert_eq!(status, 200);
    assert_eq!(docs.len(), 1);
    assert_eq!(docs[0].ident, 0);
    assert_eq!(docs[0].filename, "t.c");
    assert_eq!(docs[0].error_code, ErrorCode::NoError.tag());
    assert_eq!(docs[0].language, Language::C.tag());
    assert!(!docs[0].lines.as_ref().unwrap().is_empty());
}

#[test]
fn a_mixed_batch_answers_every_file() {
    let request_bytes = build_request(
        vec![
            (0, "a.c", "int a;", Language::C),
            (1, "b.c", "int b;", Language::C),
            (2, "s.sh", "echo hello", Language::Bash),
        ],
        0,
    );
    let (status, docs) = html_handler(&state(), request_bytes).unwrap();
    assert_eq!(status, 200);
    assert_eq!(docs.len(), 3);
    let mut idents: Vec<u16> = docs.iter().map(|d| d.ident).collect();
    idents.sort();
    assert_eq!(idents, vec![0, 1, 2]);
    assert!(docs.iter().all(|d| d.error_code == ErrorCode::NoError.tag()));
}

#[test]
fn an_unknown_extension_is_an_unknown_language() {
    let request_bytes =
        build_request(vec![(7, "x.unknownext", "hello", Language::Unspecified)], 0);
    let (status, docs) = html_handler(&state(), request_bytes).unwrap();
    assert_eq!(status, 200);
    assert_eq!(docs.len(), 1);
    assert_eq!(docs[0].ident, 7);
    assert_eq!(docs[0].error_code, ErrorCode::UnknownLanguage.tag());
    assert!(docs[0].lines.is_none());
}

#[test]
fn the_same_request_gets_the_same_answer() {
    let request_bytes = build_request(
        vec![
            (3, "a.c", "int main() { return 0; }", Language::Unspecified),
            (4, "x.unknownext", "hello", Language::Unspecified),
            (5, "e.sh", "", Language::Bash),
        ],
        0,
    );
    let first = handle::<HtmlProcessor>(&state(), request_bytes.clone()).unwrap();
    let second = handle::<HtmlProcessor>(&state(), request_bytes.clone()).unwrap();
    assert_eq!(first, second);
    let first = handle::<SpansProcessor>(&state(), request_bytes.clone()).unwrap();
    let second = handle::<SpansProcessor>(&state(), request_bytes).unwrap();
    assert_eq!(first, second);
}

#[test]
fn the_numbers_of_the_files_come_back() {
    let idents: Vec<u16> = vec![9, 0, 65535, 9, 9, 300, 1, 0];
    let files = idents.iter().map(|&id| (id, "test.c", "int main() {}", Language::C)).collect();
    let (_, docs) = html_handler(&state(), build_request(files, 0)).unwrap();
    assert_eq!(docs.len(), idents.len());
    let mut returned: Vec<u16> = docs.iter().map(|d| d.ident).collect();
    let mut expected = idents.clone();
    returned.sort();
    expected.sort();
    assert_eq!(returned, expected);
}

#[test]
fn a_spans_request_is_answered_with_spans() {
    let source = "int main() { return 0; }";
    let request_bytes = build_request(
        vec![(1, "t.c", source, Language::Unspecified), (2, "none", "x", Language::Unspecified)],
        0,
    );
    let (status, response) = spans_handler(&state(), request_bytes).unwrap();
    assert_eq!(status, 200);
    assert_eq!(response.highlight_names.len(), 26);
    assert_eq!(response.highlight_names[8], "keyword");
    assert_eq!(response.documents.len(), 2);
    let spans = response.documents[1].spans.as_ref();
    assert!(spans.is_none());
    assert_eq!(response.documents[1].error_code, ErrorCode::UnknownLanguage.tag());
    let spans = response.documents[0].spans.as_ref().unwrap();
    assert!(!spans.is_empty());
    for span in spans {
        assert!((span.index as usize) < response.highlight_names.len());
        assert!(span.start < span.end);
        assert!(span.end <= source.len() as u64);
    }
}

#[test]
fn a_request_of_the_client_is_answered() {
    let mut request = Request::new().with_timeout(1000);
    request.add_file(11, "main.c", Language::C, b"int x = 1;\n");
    request.add_file(12, "run.sh", Language::Unspecified, b"echo hi\n");
    let (status, docs) = html_handler(&state(), request.build_message().unwrap()).unwrap();
    assert_eq!(status, 200);
    assert_eq!(docs.len(), 2);
    assert_eq!((docs[0].ident, docs[0].language), (11, Language::C.tag()));
    assert_eq!((docs[1].ident, docs[1].language), (12, Language::Bash.tag()));
    assert!(docs.iter().all(|d| d.error_code == 0 && d.lines.is_some()));
}

#[test]
fn a_failed_outcome_keeps_its_file() {
    let outcome: Outcome<String> = Outcome::failure(
        3,
        String::from("a.c"),
        Some(Language::C),
        daylight::errors::NonFatalError::TimedOut,
    );
    assert_eq!((outcome.ident(), outcome.filename()), (3, "a.c"));
}

#[test]
fn a_response_is_in_the_order_of_the_request() {
    let request_bytes = build_request(
        vec![
            (5, "a.c", "int a;", Language::C),
            (4, "x.unknownext", "hello", Language::Unspecified),
            (3, "e.c", "", Language::Unspecified),
            (2, "s.sh", "echo", Language::Unspecified),
        ],
        0,
    );
    let (_, docs) = html_handler(&state(), request_bytes.clone()).unwrap();
    let idents: Vec<u16> = docs.iter().map(|d| d.ident).collect();
    assert_eq!(idents, vec![5, 4, 3, 2]);
    let codes: Vec<u8> = docs.iter().map(|d| d.error_code).collect();
    assert_eq!(codes, vec![0, 2, 0, 0]);
    let payloads: Vec<bool> = docs.iter().map(|d| d.lines.is_some()).collect();
    assert_eq!(payloads, vec![true, false, false, true]);
    let languages: Vec<u8> = docs.iter().map(|d| d.language).collect();
    assert_eq!(languages, vec![3, 0, 3, 2]);

    let (_, response) = spans_handler(&state(), request_bytes).unwrap();
    let idents: Vec<u16> = response.documents.iter().map(|d| d.ident).collect();
    assert_eq!(idents, vec![5, 4, 3, 2]);
}

#[test]
fn a_rejected_request_has_no_documents() {
    let request_bytes = build_request(vec![(1, "a.c", "int a;", Language::C)], 60_001);
    assert_eq!(
        handle::<HtmlProcessor>(&state(), request_bytes.clone()).unwrap_err(),
        FatalError::TimeoutTooLarge(60_000)
    );
    assert_eq!(
        handle::<SpansProcessor>(&state(), request_bytes).unwrap_err(),
        FatalError::TimeoutTooLarge(60_000)
    );
    assert_eq!(
        handle::<HtmlProcessor>(&state(), vec![1, 2, 3]).unwrap_err(),
        FatalError::DecodeError
    );
}

#[test]
fn a_minimal_response_keeps_the_numbers_of_the_request() {
    let request_bytes = build_request(
        vec![
            (8, "a.c", "int a;", Language::C),
            (8, "b.c", "", Language::C),
            (1, "", "x", Language::Unspecified),
        ],
        0,
    );
    let request = decode_request(&request_bytes).unwrap();
    let documents: Vec<HtmlDocument> = request
        .files
        .iter()
        .map(|file| HtmlDocument {
            ident: file.ident,
            filename: file.filename.clone(),
            language: 0,
            lines: None,
            error_code: 0,
        })
        .collect();
    let response = decode_html_response(&encode_html_response(&documents).unwrap()).unwrap();
    let mut returned: Vec<u16> = response.iter().map(|d| d.ident).collect();
    let mut expected: Vec<u16> = request.files.iter().map(|f| f.ident).collect();
    returned.sort();
    expected.sort();
    assert_eq!(returned, expected);
    assert_eq!(returned, vec![1, 8, 8]);
    let names: Vec<&str> = response.iter().map(|d| d.filename.as_str()).collect();
    assert_eq!(names, vec!["a.c", "b.c", ""]);
}
