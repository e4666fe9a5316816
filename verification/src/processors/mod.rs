//! What becomes of one file, and the two ways to process a file: into
//! rendered markup and into numeric spans.

pub mod html;
pub mod spans;

use vstd::prelude::*;
use std::sync::atomic::AtomicUsize;
use crate::envelope::read::MAX_ENVELOPE_SIZE;
use crate::errors::{ErrorCode, NonFatalError};
use crate::highlight::{Registry, WorkerState};
use crate::languages::Language;

verus! {

/// The result of one file. The correlation number and the file name are
/// those of the file, whatever became of it.
#[derive(Debug)]
#[allow(inconsistent_fields)]
pub enum Outcome<T> {
    Success { ident: u16, filename: String, language: Language, contents: Vec<T> },
    Failure { ident: u16, filename: String, language: Option<Language>, reason: NonFatalError },
}

impl<T> Outcome<T> {
    pub open spec fn spec_ident(&self) -> u16 {
        match self {
            Outcome::Success { ident, .. } => *ident,
            Outcome::Failure { ident, .. } => *ident,
        }
    }

    pub open spec fn spec_filename(&self) -> Seq<char> {
        match self {
            Outcome::Success { filename, .. } => filename@,
            Outcome::Failure { filename, .. } => filename@,
        }
    }

    /// The language in which the file was read; `Unspecified` where none
    /// was found for it.
    pub open spec fn spec_language(&self) -> Language {
        match self {
            Outcome::Success { language, .. } => *language,
            Outcome::Failure { language, .. } => match language {
                Some(l) => *l,
                None => Language::Unspecified,
            },
        }
    }

    /// The error code under which the outcome travels: a success and an
    /// empty file both travel as `NoError`.
    pub open spec fn spec_error_code(&self) -> ErrorCode {
        match self {
            Outcome::Success { .. } => ErrorCode::NoError,
            Outcome::Failure { reason, .. } => reason.spec_error_code(),
        }
    }

    /// The failure of a file for a reason.
    pub fn failure(
        ident: u16,
        filename: String,
        language: Option<Language>,
        reason: NonFatalError,
    ) -> (outcome: Outcome<T>)
        ensures
            outcome == (Outcome::<T>::Failure { ident, filename, language, reason }),
    {
        Outcome::Failure { ident, filename, language, reason }
    }

    pub fn ident(&self) -> (ident: u16)
        ensures
            ident == self.spec_ident(),
    {
        match self {
            Outcome::Success { ident, .. } => *ident,
            Outcome::Failure { ident, .. } => *ident,
        }
    }

    pub fn filename(&self) -> (filename: &str)
        ensures
            filename@ == self.spec_filename(),
    {
        match self {
            Outcome::Success { filename, .. } => filename.as_str(),
            Outcome::Failure { filename, .. } => filename.as_str(),
        }
    }

    pub fn language(&self) -> (language: Language)
        ensures
            language == self.spec_language(),
    {
        match self {
            Outcome::Success { language, .. } => *language,
            Outcome::Failure { language, .. } => match language {
                Some(l) => *l,
                None => Language::Unspecified,
            },
        }
    }

    pub fn error_code(&self) -> (code: ErrorCode)
        ensures
            code == self.spec_error_code(),
    {
        match self {
            Outcome::Success { .. } => ErrorCode::NoError,
            Outcome::Failure { reason, .. } => reason.error_code(),
        }
    }
}

/// The correlation numbers of a sequence of outcomes, one for one.
pub open spec fn outcome_idents<T>(outcomes: Seq<Outcome<T>>) -> Seq<u16> {
    Seq::new(outcomes.len(), |i: int| outcomes[i].spec_ident())
}

/// What every document of a response tells of the file that it answers,
/// whatever the payload.
pub struct DocumentSummary {
    pub ident: u16,
    pub filename: Seq<char>,
    /// The number of the language.
    pub language: u8,
    /// The number of the error code.
    pub error_code: u8,
    /// Whether the document carries a payload.
    pub has_payload: bool,
}

/// What the document that answers an outcome tells: only a success
/// carries a payload.
pub open spec fn spec_summary<T>(outcome: Outcome<T>) -> DocumentSummary {
    DocumentSummary {
        ident: outcome.spec_ident(),
        filename: outcome.spec_filename(),
        language: outcome.spec_language().spec_tag(),
        error_code: outcome.spec_error_code().spec_tag(),
        has_payload: outcome is Success,
    }
}

/// What the documents that answer a sequence of outcomes tell, one for
/// one.
pub open spec fn outcome_summaries<T>(outcomes: Seq<Outcome<T>>) -> Seq<DocumentSummary> {
    Seq::new(outcomes.len(), |i: int| spec_summary(outcomes[i]))
}

/// The correlation numbers of a sequence of documents, one for one.
pub open spec fn summary_idents(documents: Seq<DocumentSummary>) -> Seq<u16> {
    Seq::new(documents.len(), |i: int| documents[i].ident)
}

/// A way to process files: what one file becomes, and how the outcomes of
/// a request are answered.
pub trait Processor {
    /// What a highlighted file consists of.
    type Output;

    /// What the documents that the bytes of a response mean tell, in
    /// their order; `None` where the bytes are no well-formed response.
    spec fn response_summaries(bytes: Seq<u8>) -> Option<Seq<DocumentSummary>>;

    /// Whether a payload is what the processor makes of a file with these
    /// contents, under some events of the highlighter that fit the file.
    spec fn is_output_of(payload: Seq<Self::Output>, contents: Seq<u8>) -> bool;

    /// Whether bytes are the response to a request whose files had these
    /// outcomes: decoding them gives one document for each outcome, in the
    /// order of the outcomes, with the outcome's payload.
    spec fn is_response(bytes: Seq<u8>, outputs: Seq<Outcome<Self::Output>>) -> bool;

    /// Processes one file on a worker. The outcome bears the file's
    /// correlation number, name and language, on success and on failure.
    /// A language that the registry has not prepared fails the file as an
    /// invalid language. The highlighter polls `cancel` as it goes: a file
    /// that it gives up fails as timed out. The payload of a success is
    /// what the processor makes of the contents.
    fn process(
        worker: &mut WorkerState,
        registry: &Registry,
        ident: u16,
        filename: String,
        language: Language,
        contents: &[u8],
        include_injections: bool,
        cancel: &AtomicUsize,
    ) -> (outcome: Outcome<Self::Output>)
        ensures
            outcome.spec_ident() == ident,
            outcome.spec_filename() == filename@,
            outcome.spec_language() == language,
            outcome matches Outcome::Failure { language: found, .. } ==> found == Some(language),
            outcome matches Outcome::Success { contents: payload, .. } ==> Self::is_output_of(
                payload@,
                contents@,
            ),
            !registry.supports(language) ==> outcome == (Outcome::<Self::Output>::Failure {
                ident,
                filename,
                language: Some(language),
                reason: NonFatalError::InvalidLanguage,
            }),
            outcome matches Outcome::Failure { reason, .. } ==> reason
                == NonFatalError::InvalidLanguage || reason == NonFatalError::TimedOut || reason
                == NonFatalError::UnknownError,
    ;

    /// The length of the envelope of the response to a request whose
    /// files had these outcomes.
    spec fn response_size(outputs: Seq<Outcome<Self::Output>>) -> int;

    /// Encodes the response to a request whose files had these outcomes.
    /// The response has one document for each outcome, in the order of the
    /// outcomes: it bears the outcome's correlation number, file name,
    /// language and error code, and a payload if the outcome is a success.
    /// The answer is `None` exactly where the envelope would pass its
    /// limit.
    fn build_response(outputs: &Vec<Outcome<Self::Output>>) -> (bytes: Option<Vec<u8>>)
        ensures
            match bytes {
                Some(b) => {
                    &&& b@.len() == Self::response_size(outputs@)
                    &&& b@.len() <= MAX_ENVELOPE_SIZE
                    &&& Self::is_response(b@, outputs@)
                    &&& Self::response_summaries(b@) == Some(outcome_summaries(outputs@))
                },
                None => Self::response_size(outputs@) > MAX_ENVELOPE_SIZE,
            },
    ;
}

} // verus!
