use daylight::envelope::html::decode_html_response;
use daylight::envelope::spans::{decode_spans_response, SpanEntry};
use daylight::errors::{ErrorCode, HighlightError, NonFatalError};
use daylight::highlight::{
    accept_events, all_highlight_names, check_events, highlight, highlight_name, render,
    split_lines, write_class_attribute, Config, HighlightEvent, Registry, WorkerState,
    HIGHLIGHT_NAME_COUNT,
};
use daylight::languages::Language;
use daylight::processors::html::HtmlProcessor;
use daylight::processors::spans::{collect_spans, span_entries, SpansProcessor};
use daylight::processors::{Outcome, Processor};
use daylight::server::CancellationToken;
use tree_sitter_highlight::HighlightConfiguration;

const NAMES: [&str; 26] = [
    "attribute",
    "comment",
    "constant",
    "constant.builtin",
    "constructor",
    "embedded",
    "function",
    "function.builtin",
    "keyword",
    "module",
    "number",
    "operator",
    "property",
    "property.builtin",
    "punctuation",
    "punctuation.bracket",
    "punctuation.delimiter",
    "punctuation.special",
    "string",
    "string.special",
    "tag",
    "type",
    "type.builtin",
    "variable",
    "variable.builtin",
    "variable.parameter",
];

fn registry() -> Registry {
    let mut registry = Registry::new();
    let c = HighlightConfiguration::new(
        tree_sitter_c::LANGUAGE.into(),
        "c",
        tree_sitter_c::HIGHLIGHT_QUERY,
        "",
        "",
    )
    .unwrap();
    registry.register(Config::new(Language::C, c));
    let bash = HighlightConfiguration::new(
        tree_sitter_bash::LANGUAGE.into(),
        "bash",
        tree_sitter_bash::HIGHLIGHT_QUERY,
        "",
        "",
    )
    .unwrap();
    registry.register(Config::new(Language::Bash, bash));
    registry
}

/// Every `class="..."` attribute of a text bears one of the highlight
/// names.
fn classes_are_names(text: &str) -> bool {
    let mut rest = text;
    while let Some(at) = rest.find("class=\"") {
        rest = &rest[at + 7..];
        let end = match rest.find('"') {
            Some(end) => end,
            None => return false,
        };
        if !NAMES.contains(&&rest[..end]) {
            return false;
        }
        rest = &rest[end..];
    }
    true
}

#[test]
fn the_highlight_names_keep_their_numbers() {
    assert_eq!(HIGHLIGHT_NAME_COUNT, 26);
    let names = all_highlight_names();
    assert_eq!(names, NAMES);
    for (number, name) in NAMES.iter().enumerate() {
        assert_eq!(highlight_name(number), *name);
    }
}

#[test]
fn the_attribute_of_a_highlight_is_its_class() {
    let mut markup = b"<span ".to_vec();
    write_class_attribute(8, &mut markup);
    assert_eq!(markup, b"<span class=\"keyword\"");
    let mut markup = Vec::new();
    write_class_attribute(25, &mut markup);
    assert_eq!(markup, b"class=\"variable.parameter\"");
}

#[test]
fn spans_follow_the_open_highlight() {
    let events = vec![
        HighlightEvent::Source { start: 0, end: 2 },
        HighlightEvent::HighlightStart(8),
        HighlightEvent::Source { start: 2, end: 5 },
        HighlightEvent::Source { start: 5, end: 6 },
        HighlightEvent::HighlightEnd,
        HighlightEvent::Source { start: 6, end: 7 },
        HighlightEvent::HighlightStart(21),
        HighlightEvent::Source { start: 7, end: 9 },
    ];
    assert_eq!(collect_spans(&events), vec![(8, 2, 5), (8, 5, 6), (21, 7, 9)]);
    assert_eq!(collect_spans(&Vec::new()), vec![]);
}

#[test]
fn spans_drop_what_does_not_pair() {
    let events = vec![
        // An end while nothing is open.
        HighlightEvent::HighlightEnd,
        HighlightEvent::HighlightStart(1),
        // A start while a highlight is open: the open one stays.
        HighlightEvent::HighlightStart(2),
        HighlightEvent::Source { start: 0, end: 4 },
        HighlightEvent::HighlightEnd,
        // The dropped start is not there to be closed.
        HighlightEvent::HighlightEnd,
        HighlightEvent::Source { start: 4, end: 5 },
    ];
    assert_eq!(collect_spans(&events), vec![(1, 0, 4)]);
}

#[test]
fn spans_are_cut_to_the_envelope() {
    let triples = vec![(21, 0, 3), (65536 + 4, 7, 9)];
    assert_eq!(
        span_entries(&triples),
        vec![SpanEntry { index: 21, start: 0, end: 3 }, SpanEntry { index: 4, start: 7, end: 9 }]
    );
}

#[test]
fn events_are_checked_against_the_file() {
    let fit = vec![
        HighlightEvent::HighlightStart(25),
        HighlightEvent::Source { start: 0, end: 10 },
        HighlightEvent::HighlightEnd,
    ];
    assert!(check_events(&fit, 10));
    assert!(!check_events(&fit, 9));
    assert!(!check_events(&vec![HighlightEvent::HighlightStart(26)], 10));
    assert!(!check_events(&vec![HighlightEvent::Source { start: 3, end: 3 }], 10));
    assert!(!check_events(&vec![HighlightEvent::Source { start: 4, end: 3 }], 10));
    assert!(check_events(&Vec::new(), 0));

    assert_eq!(accept_events(Ok(fit.clone()), 10), Ok(fit.clone()));
    assert_eq!(accept_events(Ok(fit), 9), Err(NonFatalError::UnknownError));
    assert_eq!(accept_events(Err(HighlightError::Cancelled), 9), Err(NonFatalError::TimedOut));
    assert_eq!(
        accept_events(Err(HighlightError::InvalidLanguage), 9),
        Err(NonFatalError::InvalidLanguage)
    );
    assert_eq!(accept_events(Err(HighlightError::Unknown), 9), Err(NonFatalError::UnknownError));
}

#[test]
fn the_highlighter_reports_events_that_fit() {
    let registry = registry();
    let mut worker = WorkerState::new();
    let token = CancellationToken::new();
    let source = b"int main() { return 0; }\n";
    let events =
        highlight(&mut worker.highlighter, &registry, Language::C, source, false, token.flag())
            .unwrap();
    assert!(check_events(&events, source.len()));
    assert!(events.contains(&HighlightEvent::HighlightEnd));
    // The events cover the source from its start to its end.
    let mut at = 0;
    for event in &events {
        if let HighlightEvent::Source { start, end } = event {
            assert_eq!(*start, at);
            at = *end;
        }
    }
    assert_eq!(at, source.len());
    // Highlighting again gives the same events.
    let again =
        highlight(&mut worker.highlighter, &registry, Language::C, source, false, token.flag())
            .unwrap();
    assert_eq!(events, again);
}

#[test]
fn a_language_that_is_not_prepared_is_invalid() {
    let registry = registry();
    let mut worker = WorkerState::new();
    let token = CancellationToken::new();
    assert!(registry.get(Language::C).is_some());
    assert!(registry.get(Language::Rust).is_none());
    assert!(registry.injection("c", true).is_some());
    assert!(registry.injection("c", false).is_none());
    assert!(registry.injection("rust", true).is_none());
    assert!(registry.injection("no such language", true).is_none());
    let events = highlight(
        &mut worker.highlighter,
        &registry,
        Language::Rust,
        b"fn f() {}",
        false,
        token.flag(),
    );
    assert_eq!(events, Err(NonFatalError::InvalidLanguage));

    let outcome = HtmlProcessor::process(
        &mut worker,
        &registry,
        5,
        String::from("main.rs"),
        Language::Rust,
        b"fn f() {}",
        false,
        token.flag(),
    );
    match outcome {
        Outcome::Failure { ident, filename, language, reason } => {
            assert_eq!(ident, 5);
            assert_eq!(filename, "main.rs");
            assert_eq!(language, Some(Language::Rust));
            assert_eq!(reason, NonFatalError::InvalidLanguage);
        }
        Outcome::Success { .. } => panic!("a language that is not prepared was highlighted"),
    }
}

#[test]
fn markup_marks_highlights_by_their_names() {
    let registry = registry();
    let mut worker = WorkerState::new();
    let token = CancellationToken::new();
    let source =
        b"#include <stdio.h>\nint main() {\n    printf(\"class=\\\"x\\\"\");\n    return 0;\n}\n";
    let outcome = HtmlProcessor::process(
        &mut worker,
        &registry,
        3,
        String::from("t.c"),
        Language::C,
        source,
        false,
        token.flag(),
    );
    assert_eq!(outcome.ident(), 3);
    assert_eq!(outcome.filename(), "t.c");
    assert_eq!(outcome.language(), Language::C);
    assert_eq!(outcome.error_code(), ErrorCode::NoError);
    let lines = match &outcome {
        Outcome::Success { contents, .. } => contents.clone(),
        Outcome::Failure { .. } => panic!("the file failed"),
    };
    assert_eq!(lines.len(), 5);
    let markup = lines.concat();
    assert!(markup.contains("<span class=\"keyword\">return</span>"));
    assert!(markup.contains("<span class=\"type\">int</span>"));
    assert!(classes_are_names(&markup));
    // Rendering the same file again on the same worker gives the same
    // lines.
    let again = HtmlProcessor::process(
        &mut worker,
        &registry,
        3,
        String::from("t.c"),
        Language::C,
        source,
        false,
        token.flag(),
    );
    match again {
        Outcome::Success { contents, .. } => assert_eq!(contents, lines),
        Outcome::Failure { .. } => panic!("the file failed"),
    }
}

#[test]
fn rendering_renders_the_events() {
    let mut worker = WorkerState::new();
    let events = vec![
        HighlightEvent::HighlightStart(1),
        HighlightEvent::Source { start: 0, end: 4 },
        HighlightEvent::HighlightEnd,
        HighlightEvent::Source { start: 4, end: 8 },
    ];
    let lines = render(&mut worker.renderer, &events, b"// a\nb<c\n").unwrap();
    assert_eq!(lines, vec!["<span class=\"comment\">// a</span>\n", "b&lt;c\n"]);
    // The renderer starts afresh for each file.
    let lines = render(&mut worker.renderer, &Vec::new(), b"").unwrap();
    assert_eq!(lines, vec!["\n"]);
}

#[test]
fn spans_of_a_file_lie_inside_it() {
    let registry = registry();
    let mut worker = WorkerState::new();
    let token = CancellationToken::new();
    let source = b"int main() { return 0; }";
    let outcome = SpansProcessor::process(
        &mut worker,
        &registry,
        12,
        String::from("t.c"),
        Language::C,
        source,
        false,
        token.flag(),
    );
    assert_eq!(outcome.ident(), 12);
    assert_eq!(outcome.error_code(), ErrorCode::NoError);
    let spans = match &outcome {
        Outcome::Success { contents, .. } => contents.clone(),
        Outcome::Failure { .. } => panic!("the file failed"),
    };
    assert!(!spans.is_empty());
    for (index, start, end) in &spans {
        assert!(*index < 26);
        assert!(start < end);
        assert!(*end <= source.len());
    }
    // `int` bears the name `type` and `return` the name `keyword`.
    assert!(spans.contains(&(21, 0, 3)));
    assert!(spans.contains(&(8, 13, 19)));
}

#[test]
fn a_raised_token_stops_the_highlighter() {
    let registry = registry();
    let mut worker = WorkerState::new();
    let token = CancellationToken::new();
    assert!(!token.is_cancelled());
    let other = token.share();
    other.cancel();
    assert!(token.is_cancelled());
    // Once raised, the token stays raised.
    other.cancel();
    assert!(token.is_cancelled());

    let mut source = Vec::new();
    for i in 0..20_000 {
        source.extend_from_slice(format!("int f{}(int a) {{ return a + {}; }}\n", i, i).as_bytes());
    }
    let outcome = SpansProcessor::process(
        &mut worker,
        &registry,
        1,
        String::from("big.c"),
        Language::C,
        &source,
        false,
        token.flag(),
    );
    match outcome {
        Outcome::Failure { ident, reason, .. } => {
            assert_eq!(ident, 1);
            assert_eq!(reason, NonFatalError::TimedOut);
        }
        Outcome::Success { .. } => panic!("the highlighter went on"),
    }
    assert_eq!(
        HtmlProcessor::process(
            &mut worker,
            &registry,
            2,
            String::from("big.c"),
            Language::C,
            &source,
            false,
            token.flag(),
        )
        .error_code(),
        ErrorCode::TimedOut
    );
}

#[test]
fn a_markup_response_answers_each_outcome() {
    let outcomes = vec![
        Outcome::Success {
            ident: 2,
            filename: String::from("a.c"),
            language: Language::C,
            contents: vec![String::from("<span class=\"type\">int</span>\n")],
        },
        Outcome::failure(0, String::from("e.c"), Some(Language::C), NonFatalError::EmptyFile),
        Outcome::failure(7, String::from("x.unknownext"), None, NonFatalError::InvalidLanguage),
        Outcome::failure(1, String::from("slow.c"), Some(Language::C), NonFatalError::Cancelled),
    ];
    let bytes = HtmlProcessor::build_response(&outcomes).unwrap();
    let documents = decode_html_response(&bytes).unwrap();
    assert_eq!(documents.len(), 4);

    assert_eq!(documents[0].ident, 2);
    assert_eq!(documents[0].filename, "a.c");
    assert_eq!(documents[0].language, Language::C.tag());
    assert_eq!(documents[0].error_code, ErrorCode::NoError.tag());
    assert_eq!(documents[0].lines, Some(vec![String::from("<span class=\"type\">int</span>\n")]));

    // An empty file is answered as no error, without lines.
    assert_eq!(documents[1].ident, 0);
    assert_eq!(documents[1].filename, "e.c");
    assert_eq!(documents[1].error_code, ErrorCode::NoError.tag());
    assert_eq!(documents[1].lines, None);

    assert_eq!(documents[2].ident, 7);
    assert_eq!(documents[2].language, Language::Unspecified.tag());
    assert_eq!(documents[2].error_code, ErrorCode::UnknownLanguage.tag());
    assert_eq!(documents[2].lines, None);

    assert_eq!(documents[3].ident, 1);
    assert_eq!(documents[3].error_code, ErrorCode::TimedOut.tag());
    assert_eq!(documents[3].lines, None);
}

#[test]
fn a_spans_response_carries_the_highlight_names() {
    let outcomes = vec![
        Outcome::Success {
            ident: 9,
            filename: String::from("a.c"),
            language: Language::C,
            contents: vec![(22, 0, 3), (8, 13, 19)],
        },
        Outcome::failure(4, String::from("big"), Some(Language::C), NonFatalError::FileTooLarge),
    ];
    let bytes = SpansProcessor::build_response(&outcomes).unwrap();
    let response = decode_spans_response(&bytes).unwrap();
    assert_eq!(response.highlight_names, NAMES);
    assert_eq!(response.documents.len(), 2);
    assert_eq!(response.documents[0].ident, 9);
    assert_eq!(
        response.documents[0].spans,
        Some(vec![
            SpanEntry { index: 22, start: 0, end: 3 },
            SpanEntry { index: 8, start: 13, end: 19 }
        ])
    );
    assert_eq!(response.documents[0].error_code, ErrorCode::NoError.tag());
    assert_eq!(response.documents[1].ident, 4);
    assert_eq!(response.documents[1].spans, None);
    assert_eq!(response.documents[1].error_code, ErrorCode::FileTooLarge.tag());
}

#[test]
fn an_outcome_keeps_what_it_was_made_of() {
    let success: Outcome<String> = Outcome::Success {
        ident: 40,
        filename: String::from("a.go"),
        language: Language::Go,
        contents: vec![],
    };
    assert_eq!(success.ident(), 40);
    assert_eq!(success.filename(), "a.go");
    assert_eq!(success.language(), Language::Go);
    assert_eq!(success.error_code(), ErrorCode::NoError);

    let failure: Outcome<String> =
        Outcome::failure(41, String::from("b"), None, NonFatalError::ThreadError);
    assert_eq!(failure.ident(), 41);
    assert_eq!(failure.filename(), "b");
    assert_eq!(failure.language(), Language::Unspecified);
    assert_eq!(failure.error_code(), ErrorCode::UnknownError);

    let failure: Outcome<String> =
        Outcome::failure(42, String::from("c.py"), Some(Language::Python), NonFatalError::TimedOut);
    assert_eq!(failure.language(), Language::Python);
    assert_eq!(failure.error_code(), ErrorCode::TimedOut);
}

#[test]
fn markup_is_split_at_its_line_starts() {
    assert_eq!(
        split_lines(b"ab\ncd\n\nxyz", &[0, 3, 6, 7]),
        Some(vec![
            String::from("ab\n"),
            String::from("cd\n"),
            String::from("\n"),
            String::from("xyz")
        ])
    );
    // The last line runs to the end of the markup, and may be empty.
    assert_eq!(split_lines(b"ab\n", &[0, 3]), Some(vec![String::from("ab\n"), String::new()]));
    assert_eq!(split_lines(b"", &[0]), Some(vec![String::new()]));
    // The markup before the first line start belongs to no line.
    assert_eq!(split_lines("häh".as_bytes(), &[1]), Some(vec![String::from("äh")]));
    assert_eq!(split_lines(b"abc", &[]), Some(vec![]));
}

#[test]
fn markup_without_lines_is_refused() {
    // A line start past the end of the markup.
    assert_eq!(split_lines(b"abc", &[0, 4]), None);
    assert_eq!(split_lines(b"abc", &[4]), None);
    // A line that starts after the next one.
    assert_eq!(split_lines(b"abcdef", &[3, 2]), None);
    // A line that is no text: it starts inside a character.
    assert_eq!(split_lines("häh".as_bytes(), &[0, 2]), None);
    assert_eq!(split_lines(&[b'a', 0xff, b'\n'], &[0]), None);
}

#[test]
fn rendering_marks_no_carriage_returns() {
    let events = vec![HighlightEvent::Source { start: 0, end: 6 }];
    let source = b"a\rb\r\nc";
    let mut plain = WorkerState::new();
    let expected = render(&mut plain.renderer, &events, source).unwrap();
    assert_eq!(expected, vec!["ab\n", "c\n"]);

    // A renderer that was told to mark carriage returns forgets it.
    let mut worker = WorkerState::new();
    worker.renderer.set_carriage_return_highlight(Some(tree_sitter_highlight::Highlight(1)));
    assert_eq!(render(&mut worker.renderer, &events, source).unwrap(), expected);
    // So does one that holds markup of an earlier file.
    render(&mut worker.renderer, &vec![HighlightEvent::Source { start: 0, end: 1 }], b"z").unwrap();
    assert_eq!(render(&mut worker.renderer, &events, source).unwrap(), expected);
}

#[test]
fn a_new_worker_renders_at_once() {
    let mut worker = WorkerState::new();
    assert!(worker.renderer.html.is_empty());
    assert_eq!(worker.renderer.line_offsets, vec![0]);
    let events = vec![
        HighlightEvent::HighlightStart(8),
        HighlightEvent::Source { start: 0, end: 2 },
        HighlightEvent::HighlightEnd,
    ];
    assert_eq!(
        render(&mut worker.renderer, &events, b"if").unwrap(),
        vec!["<span class=\"keyword\">if</span>\n"]
    );
}

#[test]
fn an_embedded_language_gets_its_own_configuration() {
    let registry = registry();
    let c = &registry.get(Language::C).unwrap().ts_config;
    let bash = &registry.get(Language::Bash).unwrap().ts_config;
    assert!(!std::ptr::eq(c, bash));
    assert!(std::ptr::eq(registry.injection("c", true).unwrap(), c));
    assert!(std::ptr::eq(registry.injection("bash", true).unwrap(), bash));

    // Of two configurations of one language, the first is handed out.
    let mut registry = registry;
    let again = HighlightConfiguration::new(
        tree_sitter_bash::LANGUAGE.into(),
        "bash",
        tree_sitter_bash::HIGHLIGHT_QUERY,
        "",
        "",
    )
    .unwrap();
    registry.register(Config::new(Language::Bash, again));
    let first = &registry.get(Language::Bash).unwrap().ts_config;
    assert!(std::ptr::eq(registry.injection("bash", true).unwrap(), first));
    assert_eq!(registry.get(Language::Bash).unwrap().fb_language, Language::Bash);
}

#[test]
fn a_prepared_language_hands_out_the_numbers_of_the_names() {
    // Before it is prepared, a configuration hands out no highlight.
    let raw = HighlightConfiguration::new(
        tree_sitter_c::LANGUAGE.into(),
        "c",
        tree_sitter_c::HIGHLIGHT_QUERY,
        "",
        "",
    )
    .unwrap();
    let mut highlighter = tree_sitter_highlight::Highlighter::new();
    let source = b"int main() { return 0; }";
    let plain = highlighter.highlight(&raw, source, None, |_| None).unwrap().count();
    assert_eq!(plain, 1);

    let config = Config::new(Language::C, raw);
    let events: Vec<_> = highlighter
        .highlight(&config.ts_config, source, None, |_| None)
        .unwrap()
        .map(|event| event.unwrap())
        .collect();
    assert!(events.len() > 1);
    let mut highlights = 0;
    for event in events {
        if let tree_sitter_highlight::HighlightEvent::HighlightStart(h) = event {
            assert!(h.0 < HIGHLIGHT_NAME_COUNT);
            highlights += 1;
        }
    }
    assert!(highlights > 0);
}
