//! Processing a file into numeric spans.

use vstd::prelude::*;
use std::sync::atomic::AtomicUsize;
use crate::envelope::read::MAX_ENVELOPE_SIZE;
use crate::envelope::spans::{
    encode_spans_response, put_spans_document, spans_response_size, spans_views,
    spec_spans_response, SpanEntry, SpansDocumentView, SpansResponseView, SpansSource,
};
use crate::envelope::request::FileView;
use crate::envelope::text::{lemma_short_texts_are_small, text_views};
use crate::envelope::write::Writer;
use crate::errors::{FatalError, NonFatalError};
use crate::highlight::{
    all_highlight_names, event_fits, events_fit, highlight, highlight_names,
    lemma_highlight_names_are_short, name_views, HighlightEvent, Registry, WorkerState,
    HIGHLIGHT_NAME_COUNT,
};
use crate::languages::Language;
use crate::processors::{outcome_summaries, DocumentSummary, Outcome, Processor};
use crate::server::{handled, spec_prepare, spec_resolve_language};

verus! {

/// A span as the processor emits it: the number of the highlight name,
/// then the first and the past-the-end byte.
pub type Triple = (usize, usize, usize);

/// What the processor remembers between two events, and what it has
/// emitted so far.
pub struct Trace {
    /// The number of the highlight that is open, if one is.
    pub active: Option<usize>,
    pub emitted: Seq<Triple>,
}

/// One step of the processor. A highlight opens only while none is open;
/// source is emitted, and a highlight closes, only while one is open.
/// Every other pairing of event and state is dropped.
pub open spec fn spec_step(trace: Trace, event: HighlightEvent) -> Trace {
    match (event, trace.active) {
        (HighlightEvent::HighlightStart(index), None) => Trace {
            active: Some(index),
            emitted: trace.emitted,
        },
        (HighlightEvent::Source { start, end }, Some(active)) => Trace {
            active: trace.active,
            emitted: trace.emitted.push((active, start, end)),
        },
        (HighlightEvent::HighlightEnd, Some(_)) => Trace { active: None, emitted: trace.emitted },
        _ => trace,
    }
}

/// The processor after the first `n` events.
pub open spec fn spec_trace(events: Seq<HighlightEvent>, n: int) -> Trace
    decreases n,
{
    if n <= 0 {
        Trace { active: None, emitted: Seq::empty() }
    } else {
        spec_step(spec_trace(events, n - 1), events[n - 1])
    }
}

/// The spans that a sequence of events gives, in the order in which they
/// are met.
pub open spec fn spec_collect(events: Seq<HighlightEvent>) -> Seq<Triple> {
    spec_trace(events, events.len() as int).emitted
}

/// Whether a span is a non-empty run inside a file of `len` bytes and
/// bears the number of a highlight name.
pub open spec fn triple_fits(triple: Triple, len: int) -> bool {
    triple.0 < HIGHLIGHT_NAME_COUNT && triple.1 < triple.2 <= len
}

proof fn lemma_trace_fits(events: Seq<HighlightEvent>, n: int, len: int)
    requires
        events_fit(events, len),
        0 <= n <= events.len(),
    ensures
        spec_trace(events, n).active matches Some(index) ==> index < HIGHLIGHT_NAME_COUNT,
        forall|i: int|
            0 <= i < spec_trace(events, n).emitted.len() ==> triple_fits(
                #[trigger] spec_trace(events, n).emitted[i],
                len,
            ),
    decreases n,
{
    if n > 0 {
        lemma_trace_fits(events, n - 1, len);
        assert(event_fits(events[n - 1], len));
    }
}

/// Events that fit a file give spans that fit it: every span is a
/// non-empty run inside the file and bears the number of a highlight name.
pub proof fn lemma_spans_fit(events: Seq<HighlightEvent>, len: int)
    requires
        events_fit(events, len),
    ensures
        forall|i: int|
            0 <= i < spec_collect(events).len() ==> triple_fits(
                #[trigger] spec_collect(events)[i],
                len,
            ),
{
    lemma_trace_fits(events, events.len() as int, len);
}

/// The spans of a sequence of events.
pub fn collect_spans(events: &Vec<HighlightEvent>) -> (spans: Vec<Triple>)
    ensures
        spans@ == spec_collect(events@),
{
    let mut spans: Vec<Triple> = Vec::new();
    let mut active: Option<usize> = None;
    let mut i: usize = 0;
    while i < events.len()
        invariant
            i <= events.len(),
            spec_trace(events@, i as int) == (Trace { active, emitted: spans@ }),
        decreases events.len() - i,
    {
        match (events[i], active) {
            (HighlightEvent::HighlightStart(index), None) => {
                active = Some(index);
            },
            (HighlightEvent::Source { start, end }, Some(index)) => {
                spans.push((index, start, end));
            },
            (HighlightEvent::HighlightEnd, Some(_)) => {
                active = None;
            },
            _ => {},
        }
        i += 1;
    }
    spans
}

/// Whether spans are those of a source under some events that fit it.
pub open spec fn is_spans_of(spans: Seq<Triple>, source: Seq<u8>) -> bool {
    exists|events: Seq<HighlightEvent>|
        #[trigger] events_fit(events, source.len() as int) && spans == spec_collect(events)
}

/// Spans of a source fit it: every span is a non-empty run inside the
/// source and bears the number of a highlight name.
pub proof fn lemma_spans_of_fit(spans: Seq<Triple>, source: Seq<u8>)
    requires
        is_spans_of(spans, source),
    ensures
        forall|i: int|
            0 <= i < spans.len() ==> triple_fits(#[trigger] spans[i], source.len() as int),
{
    let events = choose|events: Seq<HighlightEvent>|
        #[trigger] events_fit(events, source.len() as int) && spans == spec_collect(events);
    lemma_spans_fit(events, source.len() as int);
}

/// The processor that answers with numeric spans.
pub struct SpansProcessor;

/// A span as an envelope holds it. The number of the highlight name is
/// cut to 16 bits.
pub open spec fn spec_span_entry(triple: Triple) -> SpanEntry {
    SpanEntry { index: (triple.0 % 0x1_0000) as u16, start: triple.1 as u64, end: triple.2 as u64 }
}

/// The spans of a sequence of triples, one for one.
pub open spec fn spec_span_entries(triples: Seq<Triple>) -> Seq<SpanEntry> {
    Seq::new(triples.len(), |i: int| spec_span_entry(triples[i]))
}

/// The document that answers an outcome: a success carries its spans, a
/// failure carries none; the error code is that of the outcome.
pub open spec fn spec_spans_document(outcome: Outcome<Triple>) -> SpansDocumentView {
    SpansDocumentView {
        ident: outcome.spec_ident(),
        filename: outcome.spec_filename(),
        language: outcome.spec_language().spec_tag(),
        spans: match outcome {
            Outcome::Success { contents, .. } => Some(spec_span_entries(contents@)),
            Outcome::Failure { .. } => None,
        },
        error_code: outcome.spec_error_code().spec_tag(),
    }
}

/// The spans of a sequence of triples as an envelope holds them.
pub fn span_entries(triples: &Vec<Triple>) -> (entries: Vec<SpanEntry>)
    ensures
        entries@ == spec_span_entries(triples@),
{
    let mut entries: Vec<SpanEntry> = Vec::new();
    let mut i: usize = 0;
    while i < triples.len()
        invariant
            i <= triples.len(),
            entries.len() == i,
            forall|k: int| 0 <= k < i ==> #[trigger] entries@[k] == spec_span_entry(triples@[k]),
        decreases triples.len() - i,
    {
        let triple = triples[i];
        entries.push(
            SpanEntry {
                index: (triple.0 % 0x1_0000) as u16,
                start: triple.1 as u64,
                end: triple.2 as u64,
            },
        );
        i += 1;
    }
    assert(entries@ =~= spec_span_entries(triples@));
    entries
}

impl SpansSource for Outcome<Triple> {
    open spec fn document(&self) -> SpansDocumentView {
        spec_spans_document(*self)
    }

    fn put_document(&self, w: &mut Writer) -> (at: Option<usize>) {
        match self {
            Outcome::Success { contents, .. } => {
                let entries = span_entries(contents);
                put_spans_document(
                    w,
                    self.ident(),
                    self.filename(),
                    self.language().tag(),
                    Some(&entries),
                    self.error_code().tag(),
                )
            },
            Outcome::Failure { .. } => put_spans_document(
                w,
                self.ident(),
                self.filename(),
                self.language().tag(),
                None,
                self.error_code().tag(),
            ),
        }
    }
}

/// What a sequence of documents tells of the files, one for one.
pub open spec fn spans_summaries(documents: Seq<SpansDocumentView>) -> Seq<DocumentSummary> {
    Seq::new(
        documents.len(),
        |i: int|
            DocumentSummary {
                ident: documents[i].ident,
                filename: documents[i].filename,
                language: documents[i].language,
                error_code: documents[i].error_code,
                has_payload: documents[i].spans is Some,
            },
    )
}

/// The response to a request whose files had these outcomes: one
/// document for each outcome, in the order of the outcomes, and the
/// highlight names by their numbers.
pub open spec fn spec_response(outcomes: Seq<Outcome<Triple>>) -> SpansResponseView {
    SpansResponseView { documents: spans_views(outcomes), highlight_names: highlight_names() }
}

/// The document that answers a file that fails before any work: it bears
/// the file's correlation number and name, the language in which the file
/// is read, if one was found, and the error code of the failure, and it
/// has no spans.
pub open spec fn failure_document(file: FileView) -> SpansDocumentView {
    SpansDocumentView {
        ident: file.ident,
        filename: file.filename,
        language: match spec_resolve_language(file.language, file.filename) {
            Some(language) => language.spec_tag(),
            None => Language::Unspecified.spec_tag(),
        },
        spans: None,
        error_code: match spec_prepare(file) {
            Err(reason) => reason.spec_error_code().spec_tag(),
            Ok(_) => 0,
        },
    }
}

/// The response that answers files that fail before any work: the
/// document of each file's failure, one for one, and the highlight names.
pub open spec fn failure_response(files: Seq<FileView>) -> SpansResponseView {
    SpansResponseView {
        documents: Seq::new(files.len(), |i: int| failure_document(files[i])),
        highlight_names: highlight_names(),
    }
}

/// A request whose files all fail before any work is answered whatever
/// the highlighter would do: the response has the document of each file's
/// failure, in the order of the request. It fails as too large exactly
/// where that response passes the limit of an envelope.
pub proof fn lemma_failures_are_answered(
    files: Seq<FileView>,
    body: Seq<u8>,
    outcomes: Seq<Outcome<Triple>>,
    response: Result<Vec<u8>, FatalError>,
)
    requires
        handled::<SpansProcessor>(files, body, outcomes, response),
        forall|i: int| 0 <= i < files.len() ==> spec_prepare(#[trigger] files[i]) is Err,
    ensures
        match response {
            Ok(bytes) => spec_spans_response(bytes@) == Some(failure_response(files)),
            Err(error) => error == FatalError::ResponseTooLarge && spans_response_size(
                failure_response(files),
            ) > MAX_ENVELOPE_SIZE,
        },
{
    assert forall|i: int| 0 <= i < files.len() implies spans_views(outcomes)[i]
        == failure_response(files).documents[i] by {
        assert(spec_prepare(files[i]) is Err);
        assert(spans_views(outcomes)[i] == spec_spans_document(outcomes[i]));
    }
    assert(spans_views(outcomes) =~= failure_response(files).documents);
}

/// A request without files is answered with a response without
/// documents, which carries the highlight names.
pub proof fn lemma_empty_batch_is_answered(
    body: Seq<u8>,
    outcomes: Seq<Outcome<Triple>>,
    response: Result<Vec<u8>, FatalError>,
)
    requires
        handled::<SpansProcessor>(Seq::<FileView>::empty(), body, outcomes, response),
    ensures
        response matches Ok(bytes) && spec_spans_response(bytes@) == Some(
            SpansResponseView { documents: Seq::empty(), highlight_names: highlight_names() },
        ),
{
    let files = Seq::<FileView>::empty();
    lemma_failures_are_answered(files, body, outcomes, response);
    assert(failure_response(files).documents =~= Seq::<SpansDocumentView>::empty());
    lemma_highlight_names_are_short();
    lemma_short_texts_are_small(highlight_names(), highlight_names().len() as int, 21);
    assert(spans_response_size(failure_response(files)) <= 26 * 96 + 200) by {
        reveal_with_fuel(crate::envelope::spans::spans_documents_size_upto, 1);
    }
}

impl SpansProcessor {
    /// What becomes of a file once it is highlighted or the highlighting
    /// has failed.
    pub fn outcome(
        ident: u16,
        filename: String,
        language: Language,
        events: Result<Vec<HighlightEvent>, NonFatalError>,
    ) -> (outcome: Outcome<Triple>)
        ensures
            match events {
                Ok(list) => outcome matches Outcome::Success {
                    ident: i,
                    filename: f,
                    language: l,
                    contents,
                } && i == ident && f == filename && l == language && contents@ == spec_collect(
                    list@,
                ),
                Err(reason) => outcome == (Outcome::<Triple>::Failure {
                    ident,
                    filename,
                    language: Some(language),
                    reason,
                }),
            },
    {
        match events {
            Ok(list) => Outcome::Success {
                ident,
                filename,
                language,
                contents: collect_spans(&list),
            },
            Err(reason) => Outcome::Failure { ident, filename, language: Some(language), reason },
        }
    }

    /// Encodes the response to a request whose files had these outcomes.
    /// Decoding the bytes gives one document for each outcome, in the
    /// order of the outcomes, and the highlight names by their numbers.
    /// The answer is `None` exactly where the envelope would pass its
    /// limit.
    pub fn encode(outputs: &Vec<Outcome<Triple>>) -> (bytes: Option<Vec<u8>>)
        ensures
            match bytes {
                Some(b) => {
                    &&& b@.len() == spans_response_size(spec_response(outputs@))
                    &&& spec_spans_response(b@) == Some(spec_response(outputs@))
                },
                None => spans_response_size(spec_response(outputs@)) > MAX_ENVELOPE_SIZE,
            },
    {
        let names = all_highlight_names();
        let bytes = encode_spans_response(outputs, &names);
        proof {
            assert(text_views(names@) =~= name_views(names@));
        }
        bytes
    }
}

impl Processor for SpansProcessor {
    type Output = Triple;

    open spec fn is_output_of(payload: Seq<Triple>, contents: Seq<u8>) -> bool {
        is_spans_of(payload, contents)
    }

    open spec fn is_response(bytes: Seq<u8>, outputs: Seq<Outcome<Triple>>) -> bool {
        spec_spans_response(bytes) == Some(spec_response(outputs))
    }

    open spec fn response_size(outputs: Seq<Outcome<Triple>>) -> int {
        spans_response_size(spec_response(outputs))
    }

    open spec fn response_summaries(bytes: Seq<u8>) -> Option<Seq<DocumentSummary>> {
        match spec_spans_response(bytes) {
            Some(response) => Some(spans_summaries(response.documents)),
            None => None,
        }
    }

    fn process(
        worker: &mut WorkerState,
        registry: &Registry,
        ident: u16,
        filename: String,
        language: Language,
        contents: &[u8],
        include_injections: bool,
        cancel: &AtomicUsize,
    ) -> (outcome: Outcome<Triple>)
        ensures
            outcome matches Outcome::Success { contents: spans, .. } ==> forall|i: int|
                0 <= i < spans@.len() ==> triple_fits(#[trigger] spans@[i], contents@.len() as int),
    {
        let events = highlight(
            &mut worker.highlighter,
            registry,
            language,
            contents,
            include_injections,
            cancel,
        );
        let ghost seen = events;
        let outcome = SpansProcessor::outcome(ident, filename, language, events);
        proof {
            if seen is Ok {
                let list = seen->Ok_0@;
                lemma_spans_fit(list, contents@.len() as int);
                assert(events_fit(list, contents@.len() as int) && outcome->Success_contents@
                    == spec_collect(list));
            }
        }
        outcome
    }

    fn build_response(outputs: &Vec<Outcome<Triple>>) -> (bytes: Option<Vec<u8>>) {
        let bytes = SpansProcessor::encode(outputs);
        proof {
            if bytes is Some {
                assert(spans_summaries(spans_views(outputs@))
                    =~= outcome_summaries(outputs@));
            }
        }
        bytes
    }
}

} // verus!
