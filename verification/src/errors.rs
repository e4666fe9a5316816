//! Error vocabulary of the service.
//!
//! Two strata exist. A [`FatalError`] rejects a whole request and is answered
//! with a client-error status. A [`NonFatalError`] concerns one file only and
//! travels inside a successful response as that document's [`ErrorCode`].

use vstd::prelude::*;
use vstd::string::StringExecFns;
use crate::text::{decimal, spec_decimal};

verus! {

/// Status code of the answer to a request that is at fault.
pub const BAD_REQUEST: u16 = 400;

/// Status code of the answer where the server cannot answer a request that
/// is not at fault.
pub const INTERNAL_SERVER_ERROR: u16 = 500;

/// Status code of a response that carries documents.
pub const OK: u16 = 200;

/// Error code carried by each document of a response.
#[derive(Clone, Copy, Debug, PartialEq, Eq, Structural)]
pub enum ErrorCode {
    NoError,
    TimedOut,
    UnknownLanguage,
    FileTooLarge,
    UnknownError,
}

impl ErrorCode {
    /// The number that stands for the code in an envelope.
    pub open spec fn spec_tag(self) -> u8 {
        match self {
            ErrorCode::NoError => 0,
            ErrorCode::TimedOut => 1,
            ErrorCode::UnknownLanguage => 2,
            ErrorCode::FileTooLarge => 3,
            ErrorCode::UnknownError => 4,
        }
    }

    /// The code that a number stands for, if any.
    pub open spec fn spec_from_tag(tag: u8) -> Option<ErrorCode> {
        if tag == 0 {
            Some(ErrorCode::NoError)
        } else if tag == 1 {
            Some(ErrorCode::TimedOut)
        } else if tag == 2 {
            Some(ErrorCode::UnknownLanguage)
        } else if tag == 3 {
            Some(ErrorCode::FileTooLarge)
        } else if tag == 4 {
            Some(ErrorCode::UnknownError)
        } else {
            None
        }
    }

    pub fn tag(self) -> (tag: u8)
        ensures
            tag == self.spec_tag(),
    {
        match self {
            ErrorCode::NoError => 0,
            ErrorCode::TimedOut => 1,
            ErrorCode::UnknownLanguage => 2,
            ErrorCode::FileTooLarge => 3,
            ErrorCode::UnknownError => 4,
        }
    }

    pub fn from_tag(tag: u8) -> (code: Option<ErrorCode>)
        ensures
            code == ErrorCode::spec_from_tag(tag),
    {
        if tag == 0 {
            Some(ErrorCode::NoError)
        } else if tag == 1 {
            Some(ErrorCode::TimedOut)
        } else if tag == 2 {
            Some(ErrorCode::UnknownLanguage)
        } else if tag == 3 {
            Some(ErrorCode::FileTooLarge)
        } else if tag == 4 {
            Some(ErrorCode::UnknownError)
        } else {
            None
        }
    }

    /// Reading back the number of a code gives the code.
    pub proof fn lemma_tag_round_trip(self)
        ensures
            ErrorCode::spec_from_tag(self.spec_tag()) == Some(self),
    {
    }
}

/// Why the highlighter gave up on a file.
#[derive(Clone, Copy, Debug, PartialEq, Eq, Structural)]
pub enum HighlightError {
    /// The cancellation token was found raised at a polling point.
    Cancelled,
    /// The grammar could not be loaded into the parser.
    InvalidLanguage,
    Unknown,
}

/// Soft errors: those that live alongside successful results.
#[derive(Clone, Copy, Debug, PartialEq, Eq, Structural)]
pub enum NonFatalError {
    /// The worker that held the file was cancelled from outside.
    Cancelled,
    EmptyFile,
    FileTooLarge,
    InvalidLanguage,
    /// The worker that held the file could not be joined.
    ThreadError,
    TimedOut,
    UnknownError,
}

impl NonFatalError {
    /// The error code under which a reason travels. An empty file is a valid
    /// request with nothing to say, so it travels as `NoError`.
    pub open spec fn spec_error_code(self) -> ErrorCode {
        match self {
            NonFatalError::TimedOut | NonFatalError::Cancelled => ErrorCode::TimedOut,
            NonFatalError::ThreadError | NonFatalError::UnknownError => ErrorCode::UnknownError,
            NonFatalError::InvalidLanguage => ErrorCode::UnknownLanguage,
            NonFatalError::FileTooLarge => ErrorCode::FileTooLarge,
            NonFatalError::EmptyFile => ErrorCode::NoError,
        }
    }

    /// The reason that a highlighter error becomes. The highlighter only
    /// sees the token raised once some deadline has passed, so its
    /// cancellation counts as a timeout.
    pub open spec fn spec_from_highlight(value: HighlightError) -> NonFatalError {
        match value {
            HighlightError::Cancelled => NonFatalError::TimedOut,
            HighlightError::InvalidLanguage => NonFatalError::InvalidLanguage,
            HighlightError::Unknown => NonFatalError::UnknownError,
        }
    }

    /// The reason that a failed join becomes, given whether the worker was
    /// cancelled from outside.
    pub open spec fn spec_from_join(cancelled: bool) -> NonFatalError {
        if cancelled {
            NonFatalError::Cancelled
        } else {
            NonFatalError::ThreadError
        }
    }

    pub open spec fn spec_message(self) -> Seq<char> {
        match self {
            NonFatalError::Cancelled => "Cancelled"@,
            NonFatalError::EmptyFile => "Empty file, nothing to do"@,
            NonFatalError::FileTooLarge => "File too large (limit: 256MB)"@,
            NonFatalError::InvalidLanguage => "Invalid or unknown language"@,
            NonFatalError::ThreadError => "Internal threading error"@,
            NonFatalError::TimedOut => "Timed out"@,
            NonFatalError::UnknownError => "Unknown error"@,
        }
    }

    pub fn error_code(self) -> (code: ErrorCode)
        ensures
            code == self.spec_error_code(),
    {
        match self {
            NonFatalError::TimedOut | NonFatalError::Cancelled => ErrorCode::TimedOut,
            NonFatalError::ThreadError | NonFatalError::UnknownError => ErrorCode::UnknownError,
            NonFatalError::InvalidLanguage => ErrorCode::UnknownLanguage,
            NonFatalError::FileTooLarge => ErrorCode::FileTooLarge,
            NonFatalError::EmptyFile => ErrorCode::NoError,
        }
    }

    pub fn from_join(cancelled: bool) -> (reason: NonFatalError)
        ensures
            reason == NonFatalError::spec_from_join(cancelled),
    {
        if cancelled {
            NonFatalError::Cancelled
        } else {
            NonFatalError::ThreadError
        }
    }

    /// The text shown for the reason.
    pub fn message(self) -> (text: &'static str)
        ensures
            text@ == self.spec_message(),
    {
        match self {
            NonFatalError::Cancelled => "Cancelled",
            NonFatalError::EmptyFile => "Empty file, nothing to do",
            NonFatalError::FileTooLarge => "File too large (limit: 256MB)",
            NonFatalError::InvalidLanguage => "Invalid or unknown language",
            NonFatalError::ThreadError => "Internal threading error",
            NonFatalError::TimedOut => "Timed out",
            NonFatalError::UnknownError => "Unknown error",
        }
    }
}

impl From<HighlightError> for NonFatalError {
    fn from(value: HighlightError) -> (reason: NonFatalError) {
        match value {
            HighlightError::Cancelled => NonFatalError::TimedOut,
            HighlightError::InvalidLanguage => NonFatalError::InvalidLanguage,
            HighlightError::Unknown => NonFatalError::UnknownError,
        }
    }
}

impl vstd::std_specs::convert::FromSpecImpl<HighlightError> for NonFatalError {
    open spec fn obeys_from_spec() -> bool {
        true
    }

    open spec fn from_spec(value: HighlightError) -> NonFatalError {
        NonFatalError::spec_from_highlight(value)
    }
}

impl From<NonFatalError> for ErrorCode {
    fn from(value: NonFatalError) -> (code: ErrorCode) {
        value.error_code()
    }
}

impl vstd::std_specs::convert::FromSpecImpl<NonFatalError> for ErrorCode {
    open spec fn obeys_from_spec() -> bool {
        true
    }

    open spec fn from_spec(value: NonFatalError) -> ErrorCode {
        value.spec_error_code()
    }
}

/// Hard errors: those that reject the whole request.
#[derive(Clone, Copy, Debug, PartialEq, Eq, Structural)]
pub enum FatalError {
    /// The request bytes are not a well-formed envelope.
    DecodeError,
    /// The request asks for a longer deadline than the server allows; the
    /// field is that limit in milliseconds.
    TimeoutTooLarge(u64),
    /// The response would be longer than an envelope may be.
    ResponseTooLarge,
}

impl FatalError {
    /// The status code with which the error is answered: a request at
    /// fault is answered with 400.
    pub open spec fn spec_status(self) -> u16 {
        match self {
            FatalError::DecodeError => BAD_REQUEST,
            FatalError::TimeoutTooLarge(_) => BAD_REQUEST,
            FatalError::ResponseTooLarge => INTERNAL_SERVER_ERROR,
        }
    }

    pub fn status(self) -> (code: u16)
        ensures
            code == self.spec_status(),
    {
        match self {
            FatalError::DecodeError => BAD_REQUEST,
            FatalError::TimeoutTooLarge(_) => BAD_REQUEST,
            FatalError::ResponseTooLarge => INTERNAL_SERVER_ERROR,
        }
    }

    /// The text with which the error is answered.
    pub open spec fn spec_message(self) -> Seq<char> {
        match self {
            FatalError::DecodeError => "Decoding request failed"@,
            FatalError::TimeoutTooLarge(max) => "Timeout too large (max supported: "@
                + spec_decimal(max as nat) + "ms)"@,
            FatalError::ResponseTooLarge => "Response too large"@,
        }
    }

    pub fn message(self) -> (text: String)
        ensures
            text@ == self.spec_message(),
    {
        match self {
            FatalError::DecodeError => String::from_str("Decoding request failed"),
            FatalError::TimeoutTooLarge(max) => {
                let mut text = String::from_str("Timeout too large (max supported: ");
                text.append(decimal(max).as_str());
                text.append("ms)");
                text
            },
            FatalError::ResponseTooLarge => String::from_str("Response too large"),
        }
    }
}

} // verus!
