use daylight::envelope::read::ByteRange;
use daylight::envelope::request::FileRecord;
use daylight::errors::{ErrorCode, FatalError, NonFatalError};
use daylight::languages::Language;
use daylight::processors::Outcome;
use daylight::server::CancellationToken;
use daylight::server::{
    accept, prepare_file_contents, resolve_language, Dispatch, FileState, Server,
    TaskEvent, MAX_FILE_SIZE, MAX_REQUEST_SIZE,
};
use flatbuffers::FlatBufferBuilder;

fn server() -> Server {
    Server { default_per_file_timeout_ms: 30_000, max_per_file_timeout_ms: 60_000 }
}

fn record(ident: u16, filename: &str, contents: Option<ByteRange>, language: u8) -> FileRecord {
    FileRecord {
        ident,
        filename: filename.to_string(),
        contents,
        language,
        include_injections: false,
    }
}

fn flatbuffers_request(files: &[(u16, &str, &[u8], u8)], timeout_ms: u64) -> Vec<u8> {
    let mut builder = FlatBufferBuilder::new();
    let mut tables = Vec::new();
    for (ident, filename, contents, language) in files {
        let filename = builder.create_string(filename);
        let contents = builder.create_vector(contents);
        let start = builder.start_table();
        builder.push_slot::<u16>(4, *ident, 0);
        builder.push_slot_always(6, filename);
        builder.push_slot_always(8, contents);
        builder.push_slot::<u8>(12, *language, 0);
        tables.push(builder.end_table(start));
    }
    let files = builder.create_vector(&tables);
    let start = builder.start_table();
    builder.push_slot_always(4, files);
    builder.push_slot::<u64>(6, timeout_ms, 0);
    let root = builder.end_table(start);
    builder.finish(root, None);
    builder.finished_data().to_vec()
}

fn finished(ident: u16) -> TaskEvent<String> {
    TaskEvent::Finished(Outcome::Success {
        ident,
        filename: String::new(),
        language: Language::C,
        contents: vec![String::from("\n")],
    })
}

fn sorted_idents(outcomes: &[Outcome<String>]) -> Vec<u16> {
    let mut idents: Vec<u16> = outcomes.iter().map(|o| o.ident()).collect();
    idents.sort();
    idents
}

#[test]
fn the_limits_are_two_gib_and_256_mib() {
    assert_eq!(MAX_REQUEST_SIZE, 2 * 1024 * 1024 * 1024);
    assert_eq!(MAX_FILE_SIZE, 256 * 1024 * 1024);
}

#[test]
fn no_deadline_asks_for_the_default() {
    assert_eq!(server().timeout(0), Ok(30_000));
    let server = Server { default_per_file_timeout_ms: 5, max_per_file_timeout_ms: 5 };
    assert_eq!(server.timeout(0), Ok(5));
}

#[test]
fn a_deadline_within_the_limit_is_kept() {
    assert_eq!(server().timeout(1), Ok(1));
    assert_eq!(server().timeout(50), Ok(50));
    assert_eq!(server().timeout(60_000), Ok(60_000));
}

#[test]
fn a_deadline_beyond_the_limit_rejects_the_request() {
    assert_eq!(server().timeout(60_001), Err(FatalError::TimeoutTooLarge(60_000)));
    assert_eq!(server().timeout(120_000), Err(FatalError::TimeoutTooLarge(60_000)));
    assert_eq!(server().timeout(u64::MAX), Err(FatalError::TimeoutTooLarge(60_000)));
    // A default beyond the limit rejects the request that asks for it.
    let server = Server { default_per_file_timeout_ms: 10, max_per_file_timeout_ms: 9 };
    assert_eq!(server.timeout(0), Err(FatalError::TimeoutTooLarge(9)));
}

#[test]
fn the_language_is_declared_or_inferred() {
    assert_eq!(resolve_language(3, "whatever.rs"), Some(Language::C));
    assert_eq!(resolve_language(15, ""), Some(Language::Tsx));
    assert_eq!(resolve_language(16, "t.c"), None);
    assert_eq!(resolve_language(200, "t.c"), None);
    assert_eq!(resolve_language(0, "t.c"), Some(Language::C));
    assert_eq!(resolve_language(0, "dir/s.sh"), Some(Language::Bash));
    assert_eq!(resolve_language(0, "x.unknownext"), None);
    assert_eq!(resolve_language(0, "noextension"), None);
    assert_eq!(resolve_language(0, ""), None);
}

#[test]
fn contents_are_sliced_out_of_the_body() {
    let body = bytes::Bytes::from_static(b"0123456789");
    let mut language = None;
    let file = record(1, "a.c", Some(ByteRange { start: 2, len: 5 }), 0);
    let contents = prepare_file_contents(&file, &body, &mut language).unwrap();
    assert_eq!(&contents[..], b"23456");
    assert_eq!(language, Some(Language::C));
    // The contents are the body's own bytes, not a copy.
    assert_eq!(contents.as_ptr(), body[2..].as_ptr());

    let file = record(1, "a.py", Some(ByteRange { start: 0, len: 10 }), 0);
    let contents = prepare_file_contents(&file, &body, &mut language).unwrap();
    assert_eq!(&contents[..], b"0123456789");
    assert_eq!(language, Some(Language::Python));
}

#[test]
fn a_file_is_checked_before_any_work() {
    let body = bytes::Bytes::from_static(b"0123456789");
    let mut language = Some(Language::Go);

    let file = record(1, "x.unknownext", Some(ByteRange { start: 0, len: 5 }), 0);
    assert_eq!(
        prepare_file_contents(&file, &body, &mut language).unwrap_err(),
        NonFatalError::InvalidLanguage
    );
    assert_eq!(language, None);

    let file = record(1, "a.c", Some(ByteRange { start: 0, len: 5 }), 77);
    assert_eq!(
        prepare_file_contents(&file, &body, &mut language).unwrap_err(),
        NonFatalError::InvalidLanguage
    );

    // The language is settled first: a file without language and without
    // contents is an invalid language.
    let file = record(1, "x.unknownext", None, 0);
    assert_eq!(
        prepare_file_contents(&file, &body, &mut language).unwrap_err(),
        NonFatalError::InvalidLanguage
    );

    let file = record(1, "a.c", None, 0);
    assert_eq!(
        prepare_file_contents(&file, &body, &mut language).unwrap_err(),
        NonFatalError::EmptyFile
    );
    assert_eq!(language, Some(Language::C));

    let file = record(1, "a.c", Some(ByteRange { start: 4, len: 0 }), 3);
    assert_eq!(
        prepare_file_contents(&file, &body, &mut language).unwrap_err(),
        NonFatalError::EmptyFile
    );
}

#[test]
fn a_file_of_300_mib_is_too_large() {
    let payload = vec![b' '; 300 * 1024 * 1024];
    let body = bytes::Bytes::from(flatbuffers_request(&[(1, "big.c", &payload, 3)], 0));
    let admission = accept(&server(), &body).unwrap();
    assert_eq!(admission.files[0].contents.unwrap().len, 300 * 1024 * 1024);
    let mut language = None;
    assert_eq!(
        prepare_file_contents(&admission.files[0], &body, &mut language).unwrap_err(),
        NonFatalError::FileTooLarge
    );
    assert_eq!(language, Some(Language::C));

    let mut dispatch: Dispatch<String> = Dispatch::new(admission.files);
    assert!(dispatch.launch(0, &body).is_none());
    let outcomes = dispatch.finish();
    assert_eq!(outcomes[0].ident(), 1);
    assert_eq!(outcomes[0].error_code(), ErrorCode::FileTooLarge);
}

#[test]
fn a_file_of_256_mib_is_work() {
    let body = bytes::Bytes::from(vec![b' '; MAX_FILE_SIZE + 1]);
    let mut language = None;
    let file = record(1, "a.c", Some(ByteRange { start: 1, len: MAX_FILE_SIZE }), 3);
    assert_eq!(prepare_file_contents(&file, &body, &mut language).unwrap().len(), MAX_FILE_SIZE);
    let file = record(1, "a.c", Some(ByteRange { start: 0, len: MAX_FILE_SIZE + 1 }), 3);
    assert_eq!(
        prepare_file_contents(&file, &body, &mut language).unwrap_err(),
        NonFatalError::FileTooLarge
    );
}

#[test]
fn a_request_is_accepted_with_its_deadline() {
    let body = flatbuffers_request(&[(4, "a.c", b"int x;", 0), (5, "b.c", b"", 3)], 0);
    let admission = accept(&server(), &bytes::Bytes::from(body)).unwrap();
    assert_eq!(admission.timeout_ms, 30_000);
    assert_eq!(admission.files.len(), 2);
    assert_eq!(admission.files[0].ident, 4);
    assert_eq!(admission.files[1].ident, 5);

    let body = flatbuffers_request(&[], 45_000);
    assert_eq!(accept(&server(), &bytes::Bytes::from(body)).unwrap().timeout_ms, 45_000);
}

#[test]
fn a_request_is_rejected_before_any_file_is_read() {
    assert_eq!(
        accept(&server(), &bytes::Bytes::from_static(b"no envelope")).unwrap_err(),
        FatalError::DecodeError
    );
    assert_eq!(accept(&server(), &bytes::Bytes::new()).unwrap_err(), FatalError::DecodeError);
    let body = flatbuffers_request(&[(4, "a.c", b"int x;", 0)], 60_001);
    assert_eq!(
        accept(&server(), &bytes::Bytes::from(body)).unwrap_err(),
        FatalError::TimeoutTooLarge(60_000)
    );
}

#[test]
fn outcomes_come_in_any_order() {
    let body = bytes::Bytes::from(flatbuffers_request(
        &[(10, "a.c", b"int a;", 0), (20, "b.c", b"int b;", 0), (30, "c.c", b"int c;", 0)],
        0,
    ));
    let admission = accept(&server(), &body).unwrap();
    let mut dispatch: Dispatch<String> = Dispatch::new(admission.files);
    assert_eq!(dispatch.len(), 3);
    assert!(!dispatch.is_finished());
    for i in 0..3 {
        assert_eq!(dispatch.state(i), FileState::Queued);
        let unit = dispatch.launch(i, &body).unwrap();
        assert_eq!(unit.ident, 10 * (i as u16 + 1));
        assert_eq!(unit.language, Language::C);
        assert_eq!(dispatch.state(i), FileState::Running);
    }
    assert!(!dispatch.settle(2, finished(30)));
    assert!(!dispatch.is_finished());
    assert!(!dispatch.settle(0, finished(10)));
    assert!(!dispatch.settle(1, finished(20)));
    assert!(dispatch.is_finished());
    assert!(!dispatch.is_cancelled());
    let outcomes = dispatch.finish();
    let order: Vec<u16> = outcomes.iter().map(|o| o.ident()).collect();
    assert_eq!(order, vec![30, 10, 20]);
}

#[test]
fn every_file_has_one_outcome_under_its_number() {
    // Two files share a number; one file fails before any work.
    let body = bytes::Bytes::from(flatbuffers_request(
        &[
            (7, "a.c", b"int a;", 0),
            (7, "b.c", b"int b;", 0),
            (7, "x.unknownext", b"hello", 0),
            (1, "e.c", b"", 0),
            (2, "s.sh", b"echo", 2),
        ],
        0,
    ));
    let admission = accept(&server(), &body).unwrap();
    let mut dispatch: Dispatch<String> = Dispatch::new(admission.files);
    let mut running = Vec::new();
    for i in 0..dispatch.len() {
        if dispatch.launch(i, &body).is_some() {
            running.push(i);
        }
    }
    assert_eq!(running, vec![0, 1, 4]);
    assert_eq!(dispatch.state(2), FileState::Completed);
    assert_eq!(dispatch.state(3), FileState::Completed);
    dispatch.settle(4, finished(2));
    dispatch.settle(1, TaskEvent::JoinFailed { cancelled: false });
    dispatch.settle(0, TaskEvent::JoinFailed { cancelled: true });
    assert_eq!(dispatch.state(0), FileState::JoinFailed);
    assert_eq!(dispatch.state(4), FileState::Completed);
    let outcomes = dispatch.finish();
    assert_eq!(outcomes.len(), 5);
    assert_eq!(sorted_idents(&outcomes), vec![1, 2, 7, 7, 7]);

    // The failures before any work come first, in the order of the
    // request.
    assert_eq!(outcomes[0].ident(), 7);
    assert_eq!(outcomes[0].filename(), "x.unknownext");
    assert_eq!(outcomes[0].error_code(), ErrorCode::UnknownLanguage);
    assert_eq!(outcomes[1].ident(), 1);
    assert_eq!(outcomes[1].filename(), "e.c");
    assert_eq!(outcomes[1].language(), Language::C);
    assert_eq!(outcomes[1].error_code(), ErrorCode::NoError);
    assert_eq!(outcomes[2].error_code(), ErrorCode::NoError);
    match &outcomes[3] {
        Outcome::Failure { ident, filename, language, reason } => {
            assert_eq!((*ident, filename.as_str()), (7, "b.c"));
            assert_eq!(*language, Some(Language::C));
            assert_eq!(*reason, NonFatalError::ThreadError);
        }
        Outcome::Success { .. } => panic!("a worker that was not joined succeeded"),
    }
    match &outcomes[4] {
        Outcome::Failure { ident, filename, reason, .. } => {
            assert_eq!((*ident, filename.as_str()), (7, "a.c"));
            assert_eq!(*reason, NonFatalError::Cancelled);
        }
        Outcome::Success { .. } => panic!("a worker that was cancelled succeeded"),
    }
    assert_eq!(outcomes[3].error_code(), ErrorCode::UnknownError);
    assert_eq!(outcomes[4].error_code(), ErrorCode::TimedOut);
}

#[test]
fn a_deadline_that_passes_raises_the_token() {
    let body = bytes::Bytes::from(flatbuffers_request(
        &[(0, "fast.c", b"int a;", 0), (1, "slow.c", b"int b;", 0)],
        50,
    ));
    let admission = accept(&server(), &body).unwrap();
    assert_eq!(admission.timeout_ms, 50);
    let mut dispatch: Dispatch<String> = Dispatch::new(admission.files);
    dispatch.launch(0, &body).unwrap();
    dispatch.launch(1, &body).unwrap();
    assert!(!dispatch.settle(0, finished(0)));
    assert!(!dispatch.is_cancelled());
    assert!(dispatch.settle(1, TaskEvent::DeadlineElapsed));
    assert!(dispatch.is_cancelled());
    assert_eq!(dispatch.state(0), FileState::Completed);
    assert_eq!(dispatch.state(1), FileState::TimedOut);
    let outcomes = dispatch.finish();
    assert_eq!(outcomes[0].ident(), 0);
    assert_eq!(outcomes[0].error_code(), ErrorCode::NoError);
    assert_eq!(outcomes[1].ident(), 1);
    assert_eq!(outcomes[1].filename(), "slow.c");
    assert_eq!(outcomes[1].error_code(), ErrorCode::TimedOut);
}

#[test]
fn a_request_without_files_is_finished_at_once() {
    let dispatch: Dispatch<String> = Dispatch::new(Vec::new());
    assert_eq!(dispatch.len(), 0);
    assert!(dispatch.is_finished());
    assert!(dispatch.finish().is_empty());
}

#[test]
fn every_handle_holds_the_flag_of_its_token() {
    let token = CancellationToken::new();
    let handle = token.share();
    assert!(std::ptr::eq(token.flag(), handle.flag()));
    assert!(std::ptr::eq(token.flag(), handle.share().flag()));
    let other = CancellationToken::new();
    assert!(!std::ptr::eq(token.flag(), other.flag()));
    // What one handle raises, every handle of the token finds raised, and
    // no handle of another token.
    assert!(!token.is_cancelled());
    handle.cancel();
    assert!(token.is_cancelled());
    assert!(handle.is_cancelled());
    assert!(!other.is_cancelled());
    assert_eq!(token.flag().load(std::sync::atomic::Ordering::SeqCst), 1);
}
