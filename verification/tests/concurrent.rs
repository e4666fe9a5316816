use std::sync::Arc;
use std::time::Duration;

use daylight::envelope::html::{decode_html_response, HtmlDocument};
use daylight::errors::ErrorCode;
use daylight::highlight::{Config, Registry, WorkerState};
use daylight::languages::Language;
use daylight::processors::html::HtmlProcessor;
use daylight::processors::Processor;
use daylight::server::{accept, CancellationToken, Dispatch, FileState, Server, TaskEvent};
use daylight::client::Request;
use tree_sitter_highlight::HighlightConfiguration;

fn c_registry() -> Registry {
    let mut registry = Registry::new();
    let c = HighlightConfiguration::new(
        tree_sitter_c::LANGUAGE.into(),
        "c",
        tree_sitter_c::HIGHLIGHT_QUERY,
        "",
        "",
    )
    .unwrap();
    registry.register(Config::new(Language::C, c));
    registry
}

/// Answers a request with one blocking worker and one deadline for each
/// file, and harvests the outcomes as they come.
async fn serve(state: Server, registry: Arc<Registry>, body: bytes::Bytes) -> Vec<HtmlDocument> {
    let admission = accept(&state, &body).unwrap();
    let timeout = Duration::from_millis(admission.timeout_ms);
    let token = CancellationToken::new();
    let mut dispatch: Dispatch<String> = Dispatch::new(admission.files);
    let mut tasks = Vec::new();
    for i in 0..dispatch.len() {
        assert_eq!(dispatch.state(i), FileState::Queued);
        let Some(unit) = dispatch.launch(i, &body) else {
            continue;
        };
        let flag = token.share();
        let flag_for_timeout = token.share();
        let registry = registry.clone();
        let task = tokio::task::spawn_blocking(move || {
            let mut worker = WorkerState::new();
            HtmlProcessor::process(
                &mut worker,
                &registry,
                unit.ident,
                unit.filename,
                unit.language,
                &unit.contents,
                unit.include_injections,
                flag.flag(),
            )
        });
        tasks.push(tokio::spawn(async move {
            let event = match tokio::time::timeout(timeout, task).await {
                Ok(Ok(outcome)) => TaskEvent::Finished(outcome),
                Ok(Err(join_error)) => TaskEvent::from_join_error(&join_error),
                Err(_elapsed) => {
                    flag_for_timeout.cancel();
                    TaskEvent::DeadlineElapsed
                }
            };
            (i, event)
        }));
    }
    for task in tasks {
        let (i, event) = task.await.unwrap();
        assert_eq!(dispatch.state(i), FileState::Running);
        if dispatch.settle(i, event) {
            token.cancel();
        }
    }
    assert!(dispatch.is_finished());
    let cancelled = dispatch.is_cancelled();
    assert_eq!(cancelled, token.is_cancelled());
    let bytes = HtmlProcessor::build_response(&dispatch.finish()).unwrap();
    decode_html_response(&bytes).unwrap()
}

#[test]
fn a_slow_file_times_out_and_a_fast_one_does_not() {
    let mut slow = Vec::new();
    for i in 0..400_000 {
        slow.extend_from_slice(format!("int f{}(int a) {{ return a + {}; }}\n", i, i).as_bytes());
    }
    let mut request = Request::new().with_timeout(50);
    request.add_file(1, "fast.c", Language::C, b"int x = 1;\n");
    request.add_file(2, "slow.c", Language::Unspecified, &slow);
    let body = bytes::Bytes::from(request.build_message().unwrap());

    let state = Server { default_per_file_timeout_ms: 30_000, max_per_file_timeout_ms: 60_000 };
    let registry = Arc::new(c_registry());
    // The first use of a grammar is slow: let it happen before the clock
    // runs.
    let warm_up = {
        let mut worker = WorkerState::new();
        let token = CancellationToken::new();
        HtmlProcessor::process(
            &mut worker,
            &registry,
            0,
            String::new(),
            Language::C,
            b"int y;",
            false,
            token.flag(),
        )
    };
    assert_eq!(warm_up.error_code(), ErrorCode::NoError);

    // The slow file always times out. The fast file is in time unless the
    // machine stalls for longer than the deadline, so it gets a few tries.
    let mut fast_was_in_time = false;
    for _ in 0..5 {
        let runtime = tokio::runtime::Builder::new_multi_thread().enable_all().build().unwrap();
        let documents = runtime.block_on(serve(state, registry.clone(), body.clone()));
        // The runtime waits for the worker of the slow file, which stops
        // at its next polling point.
        drop(runtime);

        assert_eq!(documents.len(), 2);
        let slow = documents.iter().find(|d| d.ident == 2).unwrap();
        assert_eq!(slow.filename, "slow.c");
        assert_eq!(slow.error_code, ErrorCode::TimedOut.tag());
        assert!(slow.lines.is_none());
        let fast = documents.iter().find(|d| d.ident == 1).unwrap();
        assert_eq!(fast.filename, "fast.c");
        if fast.error_code == ErrorCode::NoError.tag() {
            assert!(fast.lines.is_some());
            fast_was_in_time = true;
            break;
        }
        assert_eq!(fast.error_code, ErrorCode::TimedOut.tag());
    }
    assert!(fast_was_in_time);
}

#[test]
fn files_that_finish_in_time_are_all_answered() {
    let mut request = Request::new();
    for ident in 0..20u16 {
        request.add_file(ident, "f.c", Language::C, b"int main() { return 0; }\n");
    }
    let body = bytes::Bytes::from(request.build_message().unwrap());
    let state = Server { default_per_file_timeout_ms: 30_000, max_per_file_timeout_ms: 60_000 };
    let runtime = tokio::runtime::Builder::new_multi_thread().enable_all().build().unwrap();
    let documents = runtime.block_on(serve(state, Arc::new(c_registry()), body));
    assert_eq!(documents.len(), 20);
    let mut idents: Vec<u16> = documents.iter().map(|d| d.ident).collect();
    idents.sort();
    assert_eq!(idents, (0..20).collect::<Vec<u16>>());
    assert!(documents.iter().all(|d| d.error_code == 0 && d.lines.is_some()));
}
