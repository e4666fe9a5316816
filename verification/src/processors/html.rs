//! Processing a file into rendered markup: one line of markup for each
//! line of the file, in which every highlight is marked by a `class`
//! attribute that bears a highlight name.

use vstd::prelude::*;
use std::sync::atomic::AtomicUsize;
use crate::envelope::html::{
    encode_html_response, html_response_size, html_views, put_html_document, spec_html_response,
    HtmlDocumentView, HtmlSource,
};
use crate::envelope::read::MAX_ENVELOPE_SIZE;
use crate::envelope::text::text_views;
use crate::envelope::write::Writer;
use crate::errors::{FatalError, NonFatalError};
use crate::highlight::{
    events_fit, highlight, is_rendering_of, name_views, render, spec_render, Registry,
    WorkerState,
};
use crate::languages::Language;
use crate::envelope::request::{spec_request, FileView};
use crate::processors::{outcome_summaries, summary_idents, DocumentSummary, Outcome, Processor};
use crate::server::{file_idents, handled, spec_prepare, spec_resolve_language};

verus! {

/// The processor that answers with rendered markup.
pub struct HtmlProcessor;

/// The document that answers an outcome: a success carries its lines, a
/// failure carries none; the error code is that of the outcome.
pub open spec fn spec_html_document(outcome: Outcome<String>) -> HtmlDocumentView {
    HtmlDocumentView {
        ident: outcome.spec_ident(),
        filename: outcome.spec_filename(),
        language: outcome.spec_language().spec_tag(),
        lines: match outcome {
            Outcome::Success { contents, .. } => Some(text_views(contents@)),
            Outcome::Failure { .. } => None,
        },
        error_code: outcome.spec_error_code().spec_tag(),
    }
}

impl HtmlSource for Outcome<String> {
    open spec fn document(&self) -> HtmlDocumentView {
        spec_html_document(*self)
    }

    fn put_document(&self, w: &mut Writer) -> (at: Option<usize>) {
        let lines = match self {
            Outcome::Success { contents, .. } => Some(contents),
            Outcome::Failure { .. } => None,
        };
        put_html_document(
            w,
            self.ident(),
            self.filename(),
            self.language().tag(),
            lines,
            self.error_code().tag(),
        )
    }
}

/// What a sequence of documents tells of the files, one for one.
pub open spec fn html_summaries(documents: Seq<HtmlDocumentView>) -> Seq<DocumentSummary> {
    Seq::new(
        documents.len(),
        |i: int|
            DocumentSummary {
                ident: documents[i].ident,
                filename: documents[i].filename,
                language: documents[i].language,
                error_code: documents[i].error_code,
                has_payload: documents[i].lines is Some,
            },
    )
}

/// The correlation number and the name of each file of a request.
pub open spec fn file_labels(files: Seq<FileView>) -> Seq<(u16, Seq<char>)> {
    Seq::new(files.len(), |i: int| (files[i].ident, files[i].filename))
}

/// The correlation number and the file name of each document of a
/// response.
pub open spec fn document_labels(documents: Seq<HtmlDocumentView>) -> Seq<(u16, Seq<char>)> {
    Seq::new(documents.len(), |i: int| (documents[i].ident, documents[i].filename))
}

/// The correlation numbers of a sequence of labels, one for one.
pub open spec fn label_idents(labels: Seq<(u16, Seq<char>)>) -> Seq<u16> {
    Seq::new(labels.len(), |i: int| labels[i].0)
}

/// Labels that are the same but for their order bear the same correlation
/// numbers, each as often.
pub proof fn lemma_same_labels_same_idents(a: Seq<(u16, Seq<char>)>, b: Seq<(u16, Seq<char>)>)
    requires
        a.to_multiset() == b.to_multiset(),
    ensures
        label_idents(a).to_multiset() == label_idents(b).to_multiset(),
    decreases a.len(),
{
    broadcast use vstd::seq_lib::group_to_multiset_ensures;

    a.to_multiset_ensures();
    b.to_multiset_ensures();
    if a.len() == 0 {
        assert(label_idents(a) =~= label_idents(b));
    } else {
        let x = a.last();
        let shorter = a.drop_last();
        assert(a =~= shorter.push(x));
        assert(a.contains(x));
        assert(b.to_multiset().count(x) > 0);
        assert(b.contains(x));
        let j = choose|j: int| 0 <= j < b.len() && b[j] == x;
        let rest = b.remove(j);
        shorter.to_multiset_ensures();
        assert(shorter.to_multiset() =~= a.to_multiset().remove(x));
        assert(rest.to_multiset() =~= b.to_multiset().remove(x));
        lemma_same_labels_same_idents(shorter, rest);
        assert(label_idents(a) =~= label_idents(shorter).push(x.0));
        assert(label_idents(rest) =~= label_idents(b).remove(j));
        label_idents(b).to_multiset_ensures();
        label_idents(shorter).to_multiset_ensures();
        assert(label_idents(b)[j] == x.0);
        assert(label_idents(b).to_multiset() =~= label_idents(rest).to_multiset().insert(x.0));
    }
}

/// A response that bears the correlation numbers and names of the files
/// of a request, in any order, bears the correlation numbers of the
/// request, each as often as the request does.
pub proof fn lemma_response_keeps_idents(request: Seq<u8>, response: Seq<u8>)
    requires
        spec_request(request) is Some,
        spec_html_response(response) is Some,
        document_labels(spec_html_response(response).unwrap()).to_multiset() == file_labels(
            spec_request(request).unwrap().files,
        ).to_multiset(),
    ensures
        summary_idents(html_summaries(spec_html_response(response).unwrap())).to_multiset()
            == file_idents(spec_request(request).unwrap().files).to_multiset(),
{
    let files = spec_request(request).unwrap().files;
    let documents = spec_html_response(response).unwrap();
    lemma_same_labels_same_idents(document_labels(documents), file_labels(files));
    assert(summary_idents(html_summaries(documents)) =~= label_idents(document_labels(documents)));
    assert(file_idents(files) =~= label_idents(file_labels(files)));
}

/// The document that answers a file that fails before any work: it bears
/// the file's correlation number and name, the language in which the file
/// is read, if one was found, and the error code of the failure, and it
/// has no lines.
pub open spec fn failure_document(file: FileView) -> HtmlDocumentView {
    HtmlDocumentView {
        ident: file.ident,
        filename: file.filename,
        language: match spec_resolve_language(file.language, file.filename) {
            Some(language) => language.spec_tag(),
            None => Language::Unspecified.spec_tag(),
        },
        lines: None,
        error_code: match spec_prepare(file) {
            Err(reason) => reason.spec_error_code().spec_tag(),
            Ok(_) => 0,
        },
    }
}

/// The documents that answer files that fail before any work, one for
/// one.
pub open spec fn failure_documents(files: Seq<FileView>) -> Seq<HtmlDocumentView> {
    Seq::new(files.len(), |i: int| failure_document(files[i]))
}

/// A request whose files all fail before any work is answered whatever
/// the highlighter would do: the response has the document of each file's
/// failure, in the order of the request. It fails as too large exactly
/// where these documents pass the limit of an envelope.
pub proof fn lemma_failures_are_answered(
    files: Seq<FileView>,
    body: Seq<u8>,
    outcomes: Seq<Outcome<String>>,
    response: Result<Vec<u8>, FatalError>,
)
    requires
        handled::<HtmlProcessor>(files, body, outcomes, response),
        forall|i: int| 0 <= i < files.len() ==> spec_prepare(#[trigger] files[i]) is Err,
    ensures
        match response {
            Ok(bytes) => spec_html_response(bytes@) == Some(failure_documents(files)),
            Err(error) => error == FatalError::ResponseTooLarge && html_response_size(
                failure_documents(files),
            ) > MAX_ENVELOPE_SIZE,
        },
{
    assert forall|i: int| 0 <= i < files.len() implies html_views(outcomes)[i]
        == failure_documents(files)[i] by {
        assert(spec_prepare(files[i]) is Err);
        let outcome = outcomes[i];
        assert(html_views(outcomes)[i] == spec_html_document(outcome));
    }
    assert(html_views(outcomes) =~= failure_documents(files));
}

/// A request without files is answered with a response without
/// documents.
pub proof fn lemma_empty_batch_is_answered(
    body: Seq<u8>,
    outcomes: Seq<Outcome<String>>,
    response: Result<Vec<u8>, FatalError>,
)
    requires
        handled::<HtmlProcessor>(Seq::<FileView>::empty(), body, outcomes, response),
    ensures
        response matches Ok(bytes) && spec_html_response(bytes@) == Some(
            Seq::<HtmlDocumentView>::empty(),
        ),
{
    let files = Seq::<FileView>::empty();
    lemma_failures_are_answered(files, body, outcomes, response);
    assert(failure_documents(files) =~= Seq::<HtmlDocumentView>::empty());
    assert(html_response_size(Seq::<HtmlDocumentView>::empty()) == 40) by {
        reveal_with_fuel(crate::envelope::html::html_documents_size_upto, 1);
    }
}

impl HtmlProcessor {
    /// What becomes of a file once its lines are rendered or the rendering
    /// has failed.
    pub fn outcome(
        ident: u16,
        filename: String,
        language: Language,
        lines: Result<Vec<String>, NonFatalError>,
    ) -> (outcome: Outcome<String>)
        ensures
            outcome == match lines {
                Ok(contents) => Outcome::Success { ident, filename, language, contents },
                Err(reason) => Outcome::Failure {
                    ident,
                    filename,
                    language: Some(language),
                    reason,
                },
            },
    {
        match lines {
            Ok(contents) => Outcome::Success { ident, filename, language, contents },
            Err(reason) => Outcome::Failure { ident, filename, language: Some(language), reason },
        }
    }

    /// Encodes the response to a request whose files had these outcomes.
    /// Decoding the bytes gives one document for each outcome, in the
    /// order of the outcomes. The answer is `None` exactly where the
    /// envelope would pass its limit.
    pub fn encode(outputs: &Vec<Outcome<String>>) -> (bytes: Option<Vec<u8>>)
        ensures
            match bytes {
                Some(b) => {
                    &&& b@.len() == html_response_size(html_views(outputs@))
                    &&& spec_html_response(b@) == Some(html_views(outputs@))
                },
                None => html_response_size(html_views(outputs@)) > MAX_ENVELOPE_SIZE,
            },
    {
        encode_html_response(outputs)
    }
}

impl Processor for HtmlProcessor {
    type Output = String;

    open spec fn is_output_of(payload: Seq<String>, contents: Seq<u8>) -> bool {
        is_rendering_of(name_views(payload), contents)
    }

    open spec fn is_response(bytes: Seq<u8>, outputs: Seq<Outcome<String>>) -> bool {
        spec_html_response(bytes) == Some(html_views(outputs))
    }

    open spec fn response_size(outputs: Seq<Outcome<String>>) -> int {
        html_response_size(html_views(outputs))
    }

    open spec fn response_summaries(bytes: Seq<u8>) -> Option<Seq<DocumentSummary>> {
        match spec_html_response(bytes) {
            Some(documents) => Some(html_summaries(documents)),
            None => None,
        }
    }

    fn process(
        worker: &mut WorkerState,
        registry: &Registry,
        ident: u16,
        filename: String,
        language: Language,
        contents: &[u8],
        include_injections: bool,
        cancel: &AtomicUsize,
    ) -> (outcome: Outcome<String>)
    {
        let events = highlight(
            &mut worker.highlighter,
            registry,
            language,
            contents,
            include_injections,
            cancel,
        );
        let lines = match events {
            Err(reason) => Err(reason),
            Ok(events) => {
                let lines = render(&mut worker.renderer, &events, contents);
                proof {
                    if lines is Ok {
                        assert(events_fit(events@, contents@.len() as int) && spec_render(
                            events@,
                            contents@,
                        ) == Some(name_views(lines->Ok_0@)));
                    }
                }
                lines
            },
        };
        HtmlProcessor::outcome(ident, filename, language, lines)
    }

    fn build_response(outputs: &Vec<Outcome<String>>) -> (bytes: Option<Vec<u8>>) {
        let bytes = HtmlProcessor::encode(outputs);
        proof {
            if bytes is Some {
                assert(html_summaries(html_views(outputs@)) =~= outcome_summaries(outputs@));
            }
        }
        bytes
    }
}

} // verus!
