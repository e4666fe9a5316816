//! The request core of the server: what is decided about a request and
//! about each of its files, from the decoded envelope to the outcomes that
//! the response is built from.
//!
//! [`generic_handler`] answers a request on the calling thread. A program
//! that runs the files side by side keeps a [`Dispatch`]: it hands each
//! unit of work to a worker, watches its deadline, and reports what
//! happened; the dispatch says what follows from each report.

use vstd::multiset::Multiset;
use vstd::prelude::*;
use std::sync::atomic::AtomicUsize;
use std::sync::atomic::Ordering;
use std::sync::Arc;
use crate::envelope::read::{ByteRange, MAX_ENVELOPE_SIZE};
use crate::envelope::request::{
    contents_within, decode_request, file_views, spec_request, FileRecord, FileView,
};
use crate::errors::{ErrorCode, FatalError, NonFatalError};
use crate::highlight::{Registry, WorkerState};
use crate::languages::{from_path, spec_from_path, Language};
use crate::processors::{
    outcome_idents, outcome_summaries, spec_summary, summary_idents, DocumentSummary, Outcome,
    Processor,
};

verus! {

#[verifier::external_type_specification]
#[verifier::external_body]
pub struct ExBytes(bytes::Bytes);

#[verifier::external_type_specification]
#[verifier::external_body]
pub struct ExJoinError(tokio::task::JoinError);

/// No request is longer than 2 GiB.
pub const MAX_REQUEST_SIZE: usize = 0x8000_0000;

/// No file is longer than 256 MiB.
pub const MAX_FILE_SIZE: usize = 0x1000_0000;

/// What the server is configured with.
#[derive(Clone, Copy, Debug, PartialEq, Eq, Structural)]
pub struct Server {
    /// The deadline of a file where the request names none, in
    /// milliseconds.
    pub default_per_file_timeout_ms: u64,
    /// The longest deadline that a request may ask for, in milliseconds.
    pub max_per_file_timeout_ms: u64,
}

impl Server {
    /// The deadline that holds for every file of a request that asks for
    /// `timeout_ms`: the server's default where the request asks for 0,
    /// else what the request asks for; a deadline beyond the server's
    /// limit rejects the request.
    pub open spec fn spec_timeout(self, timeout_ms: u64) -> Result<u64, FatalError> {
        let effective = if timeout_ms == 0 {
            self.default_per_file_timeout_ms
        } else {
            timeout_ms
        };
        if effective > self.max_per_file_timeout_ms {
            Err(FatalError::TimeoutTooLarge(self.max_per_file_timeout_ms))
        } else {
            Ok(effective)
        }
    }

    pub fn timeout(&self, timeout_ms: u64) -> (deadline: Result<u64, FatalError>)
        ensures
            deadline == self.spec_timeout(timeout_ms),
    {
        let effective = if timeout_ms == 0 {
            self.default_per_file_timeout_ms
        } else {
            timeout_ms
        };
        if effective > self.max_per_file_timeout_ms {
            Err(FatalError::TimeoutTooLarge(self.max_per_file_timeout_ms))
        } else {
            Ok(effective)
        }
    }

    /// A request that asks for more than the server's limit is rejected,
    /// and the rejection is answered with a client-error status.
    pub proof fn lemma_timeout_beyond_limit(self, timeout_ms: u64)
        requires
            timeout_ms > self.max_per_file_timeout_ms,
        ensures
            self.spec_timeout(timeout_ms) == Err::<u64, FatalError>(
                FatalError::TimeoutTooLarge(self.max_per_file_timeout_ms),
            ),
            400 <= self.spec_timeout(timeout_ms)->Err_0.spec_status() < 500,
    {
    }

    /// A request that asks for no deadline gets the server's default,
    /// provided that the default is within the server's limit.
    pub proof fn lemma_default_timeout(self)
        requires
            self.default_per_file_timeout_ms <= self.max_per_file_timeout_ms,
        ensures
            self.spec_timeout(0) == Ok::<u64, FatalError>(self.default_per_file_timeout_ms),
    {
    }
}

/// A request that was admitted: its files and the deadline that holds for
/// each of them.
#[derive(Debug)]
pub struct Admission {
    pub files: Vec<FileRecord>,
    pub timeout_ms: u64,
}

/// What an [`Admission`] holds.
pub struct AdmissionView {
    pub files: Seq<FileView>,
    pub timeout_ms: u64,
}

impl View for Admission {
    type V = AdmissionView;

    open spec fn view(&self) -> AdmissionView {
        AdmissionView { files: file_views(self.files@), timeout_ms: self.timeout_ms }
    }
}

/// What becomes of the bytes of a request: bytes that are no well-formed
/// request are a decode error; a deadline beyond the limit rejects the
/// request; otherwise the request is admitted with its files.
pub open spec fn spec_accept(server: Server, body: Seq<u8>) -> Result<AdmissionView, FatalError> {
    match spec_request(body) {
        None => Err(FatalError::DecodeError),
        Some(request) => match server.spec_timeout(request.timeout_ms) {
            Err(error) => Err(error),
            Ok(timeout_ms) => Ok(AdmissionView { files: request.files, timeout_ms }),
        },
    }
}

/// Decodes a request and settles its deadline. No contents are copied:
/// each admitted file names the place of its contents in `body`.
pub fn accept(server: &Server, body: &bytes::Bytes) -> (admission: Result<Admission, FatalError>)
    ensures
        spec_accept(*server, bytes_view(*body)) == match admission {
            Ok(a) => Ok::<AdmissionView, FatalError>(a@),
            Err(error) => Err(error),
        },
        admission matches Ok(a) ==> contents_within(a@.files, bytes_view(*body)),
{
    match decode_request(bytes_of(body)) {
        None => Err(FatalError::DecodeError),
        Some(request) => match server.timeout(request.timeout_ms) {
            Err(error) => Err(error),
            Ok(timeout_ms) => Ok(Admission { files: request.files, timeout_ms }),
        },
    }
}

/// The language in which a file is read: the language that the request
/// declares, if it declares one that exists; else, where it declares
/// none, the language that the extension of the file name selects.
pub open spec fn spec_resolve_language(tag: u8, filename: Seq<char>) -> Option<Language> {
    if tag != 0 {
        Language::spec_from_tag(tag)
    } else {
        spec_from_path(filename)
    }
}

/// The language in which a file is read is never `Unspecified`.
pub proof fn lemma_resolved_language_is_specified(tag: u8, filename: Seq<char>)
    ensures
        spec_resolve_language(tag, filename) != Some(Language::Unspecified),
{
}

pub fn resolve_language(tag: u8, filename: &str) -> (language: Option<Language>)
    ensures
        language == spec_resolve_language(tag, filename@),
{
    if tag != 0 {
        Language::from_tag(tag)
    } else {
        from_path(filename)
    }
}

/// What is decided about a file before any work is scheduled, in this
/// order: a file without a language fails as an invalid language; a file
/// without contents, or with empty contents, fails as an empty file; a
/// file of more than 256 MiB fails as too large. Otherwise the file is
/// work, and the answer is the place of its contents.
pub open spec fn spec_prepare(file: FileView) -> Result<ByteRange, NonFatalError> {
    if spec_resolve_language(file.language, file.filename) is None {
        Err(NonFatalError::InvalidLanguage)
    } else {
        match file.contents {
            None => Err(NonFatalError::EmptyFile),
            Some(range) => if range.len == 0 {
                Err(NonFatalError::EmptyFile)
            } else if range.len > MAX_FILE_SIZE {
                Err(NonFatalError::FileTooLarge)
            } else {
                Ok(range)
            },
        }
    }
}

/// The bytes that a shared buffer holds.
pub uninterp spec fn bytes_view(b: bytes::Bytes) -> Seq<u8>;

/// Calls `Bytes::as_ref`, which lends the bytes of the buffer.
#[verifier::external_body]
fn bytes_of(b: &bytes::Bytes) -> (slice: &[u8])
    ensures
        slice@ == bytes_view(*b),
{
    b.as_ref()
}

/// Calls `Bytes::slice`, which shares the buffer and holds the bytes of
/// the range, without copying them. The call panics on a range that leaves
/// the buffer.
#[verifier::external_body]
fn share(b: &bytes::Bytes, start: usize, end: usize) -> (part: bytes::Bytes)
    requires
        start <= end <= bytes_view(*b).len(),
    ensures
        bytes_view(part) == bytes_view(*b).subrange(start as int, end as int),
{
    b.slice(start..end)
}

/// Slices the contents of a file out of the request body, without copying
/// them, after settling the file's language and checking its contents.
/// The language that was found, if any, is left in `language`.
pub fn prepare_file_contents(
    file: &FileRecord,
    body: &bytes::Bytes,
    language: &mut Option<Language>,
) -> (contents: Result<bytes::Bytes, NonFatalError>)
    requires
        file.contents matches Some(range) ==> range.within(bytes_view(*body)),
    ensures
        *final(language) == spec_resolve_language(file.language, file.filename@),
        match contents {
            Ok(part) => spec_prepare(file@) matches Ok(range) && bytes_view(part) == range.of(
                bytes_view(*body),
            ),
            Err(reason) => spec_prepare(file@) == Err::<ByteRange, NonFatalError>(reason),
        },
{
    let total: usize = bytes_of(body).len();
    *language = resolve_language(file.language, file.filename.as_str());
    if language.is_none() {
        return Err(NonFatalError::InvalidLanguage);
    }
    match file.contents {
        None => Err(NonFatalError::EmptyFile),
        Some(range) => {
            if range.len == 0 {
                Err(NonFatalError::EmptyFile)
            } else if range.len > MAX_FILE_SIZE {
                Err(NonFatalError::FileTooLarge)
            } else {
                assert(range.start + range.len <= total);
                Ok(share(body, range.start, range.start + range.len))
            }
        },
    }
}

/// One file's job for a worker.
pub struct WorkUnit {
    pub ident: u16,
    pub filename: String,
    pub language: Language,
    /// The contents of the file: a part of the request body.
    pub contents: bytes::Bytes,
    pub include_injections: bool,
}

/// The token by which the tasks of one request are told to stop: 0 says
/// go on, anything else says stop at the next polling point. It is only
/// ever raised.
pub struct CancellationToken {
    flag: Arc<AtomicUsize>,
}

impl CancellationToken {
    /// The flag that every handle on the token holds.
    pub closed spec fn atomic(&self) -> AtomicUsize {
        *self.flag
    }

    /// A token that says go on.
    pub fn new() -> CancellationToken {
        CancellationToken { flag: Arc::new(AtomicUsize::new(0)) }
    }

    /// Another handle on the same token: it holds the same flag.
    pub fn share(&self) -> (handle: CancellationToken)
        ensures
            handle.atomic() == self.atomic(),
    {
        CancellationToken { flag: self.flag.clone() }
    }

    /// Raises the token.
    pub fn cancel(&self) {
        self.flag.store(1, Ordering::SeqCst);
    }

    /// Whether the token was found raised.
    pub fn is_cancelled(&self) -> bool {
        self.flag.load(Ordering::SeqCst) != 0
    }

    /// The flag that the highlighter polls: the one that the token holds.
    pub fn flag(&self) -> (flag: &AtomicUsize)
        ensures
            *flag == self.atomic(),
    {
        &self.flag
    }
}

/// Where one file of a request stands.
#[derive(Clone, Copy, Debug, PartialEq, Eq, Structural)]
pub enum FileState {
    /// Nothing was decided about the file yet.
    Queued,
    /// A worker holds the file.
    Running,
    /// The file has its outcome: from its worker, or without one where it
    /// failed before any work was scheduled.
    Completed,
    /// The deadline of the file passed.
    TimedOut,
    /// The worker that held the file could not be joined.
    JoinFailed,
}

impl FileState {
    /// Whether the file has its outcome.
    pub open spec fn is_terminal(self) -> bool {
        self == FileState::Completed || self == FileState::TimedOut || self
            == FileState::JoinFailed
    }

    /// How far the file has come: a file only ever moves to a state that
    /// is further on.
    pub open spec fn rank(self) -> int {
        match self {
            FileState::Queued => 0,
            FileState::Running => 1,
            _ => 2,
        }
    }

    pub fn terminal(self) -> (terminal: bool)
        ensures
            terminal == self.is_terminal(),
    {
        match self {
            FileState::Queued => false,
            FileState::Running => false,
            _ => true,
        }
    }
}

/// Whether every file stands where it stood or further on.
pub open spec fn advanced(before: Seq<FileState>, after: Seq<FileState>) -> bool {
    &&& after.len() == before.len()
    &&& forall|k: int| 0 <= k < before.len() ==> (#[trigger] after[k]).rank() >= before[k].rank()
}

/// What the embedding program reports of a file that a worker held.
pub enum TaskEvent<T> {
    /// The worker finished the file with this outcome.
    Finished(Outcome<T>),
    /// The worker could not be joined; it was cancelled from outside, or
    /// it failed otherwise.
    JoinFailed { cancelled: bool },
    /// The deadline passed before the worker finished.
    DeadlineElapsed,
}

/// Whether a join error says that its task was cancelled, rather than that
/// it panicked.
pub uninterp spec fn join_error_cancelled(error: tokio::task::JoinError) -> bool;

/// Calls `JoinError::is_cancelled`, which tells the two kinds of join
/// error apart; the contract only gives that answer its name.
#[verifier::external_body]
fn join_error_is_cancelled(error: &tokio::task::JoinError) -> (cancelled: bool)
    ensures
        cancelled == join_error_cancelled(*error),
{
    error.is_cancelled()
}

impl<T> TaskEvent<T> {
    /// The report that a worker could not be joined: it says whether the
    /// worker was cancelled, as the join error does.
    pub fn from_join_error(error: &tokio::task::JoinError) -> (event: TaskEvent<T>)
        ensures
            event == (TaskEvent::<T>::JoinFailed { cancelled: join_error_cancelled(*error) }),
    {
        TaskEvent::JoinFailed { cancelled: join_error_is_cancelled(error) }
    }
}

/// The state in which a report leaves a file.
pub open spec fn spec_settled_state<T>(event: TaskEvent<T>) -> FileState {
    match event {
        TaskEvent::Finished(_) => FileState::Completed,
        TaskEvent::JoinFailed { .. } => FileState::JoinFailed,
        TaskEvent::DeadlineElapsed => FileState::TimedOut,
    }
}

/// Whether a report raises the cancellation token: a deadline that passed
/// does, so that the other files of the request stop at their next polling
/// point.
pub open spec fn spec_raises<T>(event: TaskEvent<T>) -> bool {
    event is DeadlineElapsed
}

/// The correlation numbers of the files that have no outcome yet, among
/// the first `n` files.
pub open spec fn pending(idents: Seq<u16>, states: Seq<FileState>, n: int) -> Multiset<u16>
    decreases n,
{
    if n <= 0 {
        Multiset::empty()
    } else if states[n - 1].is_terminal() {
        pending(idents, states, n - 1)
    } else {
        pending(idents, states, n - 1).insert(idents[n - 1])
    }
}

proof fn lemma_pending_fresh(idents: Seq<u16>, states: Seq<FileState>, n: int)
    requires
        0 <= n <= idents.len(),
        idents.len() == states.len(),
        forall|i: int| 0 <= i < states.len() ==> !(#[trigger] states[i]).is_terminal(),
    ensures
        pending(idents, states, n) == idents.subrange(0, n).to_multiset(),
    decreases n,
{
    broadcast use vstd::seq_lib::group_to_multiset_ensures;

    if n > 0 {
        lemma_pending_fresh(idents, states, n - 1);
        assert(idents.subrange(0, n) =~= idents.subrange(0, n - 1).push(idents[n - 1]));
    } else {
        assert(idents.subrange(0, 0) =~= Seq::<u16>::empty());
    }
}

proof fn lemma_pending_done(idents: Seq<u16>, states: Seq<FileState>, n: int)
    requires
        0 <= n <= idents.len(),
        idents.len() == states.len(),
        forall|i: int| 0 <= i < states.len() ==> (#[trigger] states[i]).is_terminal(),
    ensures
        pending(idents, states, n) == Multiset::<u16>::empty(),
    decreases n,
{
    if n > 0 {
        lemma_pending_done(idents, states, n - 1);
    }
}

proof fn lemma_pending_moves(
    idents: Seq<u16>,
    states: Seq<FileState>,
    i: int,
    state: FileState,
    n: int,
)
    requires
        0 <= n <= idents.len(),
        idents.len() == states.len(),
        0 <= i < states.len(),
        !states[i].is_terminal(),
    ensures
        i < n ==> pending(idents, states, n).count(idents[i]) > 0,
        pending(idents, states.update(i, state), n) == if i < n && state.is_terminal() {
            pending(idents, states, n).remove(idents[i])
        } else {
            pending(idents, states, n)
        },
    decreases n,
{
    if n > 0 {
        lemma_pending_moves(idents, states, i, state, n - 1);
        let after = states.update(i, state);
        if i == n - 1 {
            assert(pending(idents, after, n - 1) == pending(idents, states, n - 1));
            if state.is_terminal() {
                assert(pending(idents, states, n - 1).insert(idents[i]).remove(idents[i])
                    =~= pending(idents, states, n - 1));
            }
        } else if i < n - 1 && state.is_terminal() {
            if !states[n - 1].is_terminal() {
                assert(pending(idents, states, n - 1).remove(idents[i]).insert(idents[n - 1])
                    =~= pending(idents, states, n - 1).insert(idents[n - 1]).remove(idents[i]));
            }
        }
    }
}

/// Whether an outcome is the failure of a file for a reason: it bears the
/// file's correlation number and name, and the language in which the
/// file is read, if one was found.
pub open spec fn is_failure_of<T>(
    outcome: Outcome<T>,
    file: FileView,
    reason: NonFatalError,
) -> bool {
    &&& outcome matches Outcome::Failure { ident, filename, language, reason: r }
    &&& ident == file.ident
    &&& filename@ == file.filename
    &&& language == spec_resolve_language(file.language, file.filename)
    &&& r == reason
}

/// The files of one request on their way to their outcomes.
pub struct Dispatch<T> {
    files: Vec<FileRecord>,
    states: Vec<FileState>,
    languages: Vec<Option<Language>>,
    outcomes: Vec<Outcome<T>>,
    cancelled: bool,
}

/// The correlation numbers of a sequence of files, one for one.
pub open spec fn file_idents(files: Seq<FileView>) -> Seq<u16> {
    Seq::new(files.len(), |i: int| files[i].ident)
}

impl<T> Dispatch<T> {
    /// The files of the request, in the order of the request.
    pub closed spec fn files(&self) -> Seq<FileView> {
        file_views(self.files@)
    }

    /// Where each file stands.
    pub closed spec fn states(&self) -> Seq<FileState> {
        self.states@
    }

    /// The outcomes that were harvested, in the order in which they came.
    pub closed spec fn outcomes(&self) -> Seq<Outcome<T>> {
        self.outcomes@
    }

    /// Whether a deadline has passed, so that the token is raised.
    pub closed spec fn cancelled(&self) -> bool {
        self.cancelled
    }

    /// Whether every file has its outcome.
    pub open spec fn finished(&self) -> bool {
        forall|i: int| 0 <= i < self.states().len() ==> (#[trigger] self.states()[i]).is_terminal()
    }

    /// Each file has one state; the outcomes that were harvested are those
    /// of the files that have their outcome, each under its file's
    /// correlation number.
    pub closed spec fn wf(&self) -> bool {
        &&& self.files@.len() == self.states@.len()
        &&& self.files@.len() == self.languages@.len()
        &&& forall|k: int|
            0 <= k < self.states@.len() && #[trigger] self.states@[k] != FileState::Queued
                ==> self.languages@[k] == spec_resolve_language(
                self.files@[k].language,
                self.files@[k].filename@,
            )
        &&& outcome_idents(self.outcomes@).to_multiset().add(
            pending(file_idents(self.files()), self.states@, self.states@.len() as int),
        ) == file_idents(self.files()).to_multiset()
    }

    /// Takes up the files of a request. Every file is queued.
    pub fn new(files: Vec<FileRecord>) -> (dispatch: Dispatch<T>)
        ensures
            dispatch.wf(),
            dispatch.files() == file_views(files@),
            dispatch.states().len() == files@.len(),
            forall|i: int|
                0 <= i < files@.len() ==> #[trigger] dispatch.states()[i] == FileState::Queued,
            dispatch.outcomes() == Seq::<Outcome<T>>::empty(),
            !dispatch.cancelled(),
    {
        let mut states: Vec<FileState> = Vec::new();
        let mut languages: Vec<Option<Language>> = Vec::new();
        let mut i: usize = 0;
        while i < files.len()
            invariant
                i <= files.len(),
                states.len() == i,
                languages.len() == i,
                forall|k: int| 0 <= k < i ==> #[trigger] states@[k] == FileState::Queued,
            decreases files.len() - i,
        {
            states.push(FileState::Queued);
            languages.push(None);
            i += 1;
        }
        let outcomes: Vec<Outcome<T>> = Vec::new();
        let dispatch = Dispatch { files, states, languages, outcomes, cancelled: false };
        proof {
            broadcast use vstd::seq_lib::group_to_multiset_ensures;

            let idents = file_idents(dispatch.files());
            assert(idents.len() == dispatch.states@.len());
            assert forall|k: int| 0 <= k < dispatch.states@.len() implies !(
            #[trigger] dispatch.states@[k]).is_terminal() by {
                assert(dispatch.states@[k] == FileState::Queued);
            }
            lemma_pending_fresh(idents, dispatch.states@, idents.len() as int);
            assert(idents.subrange(0, idents.len() as int) =~= idents);
            assert(outcome_idents(dispatch.outcomes@) =~= Seq::<u16>::empty());
            assert(Seq::<u16>::empty().to_multiset() =~= Multiset::<u16>::empty()) by {
                assert forall|x: u16| Seq::<u16>::empty().to_multiset().count(x) == 0 by {
                    assert(!Seq::<u16>::empty().contains(x));
                }
            }
            assert(Multiset::<u16>::empty().add(idents.to_multiset()) =~= idents.to_multiset());
        }
        dispatch
    }

    /// The number of files.
    pub fn len(&self) -> (n: usize)
        requires
            self.wf(),
        ensures
            n == self.files().len(),
            n == self.states().len(),
    {
        self.files.len()
    }

    /// Decides about a queued file. A file that fails before any work is
    /// scheduled gets its failure at once, and the answer is `None`.
    /// Otherwise the file is running, and the answer is its unit of work:
    /// the contents are a part of `body`, not a copy.
    pub fn launch(&mut self, i: usize, body: &bytes::Bytes) -> (unit: Option<WorkUnit>)
        requires
            old(self).wf(),
            i < old(self).states().len(),
            old(self).states()[i as int] == FileState::Queued,
            contents_within(old(self).files(), bytes_view(*body)),
        ensures
            final(self).wf(),
            final(self).files() == old(self).files(),
            final(self).cancelled() == old(self).cancelled(),
            advanced(old(self).states(), final(self).states()),
            match spec_prepare(old(self).files()[i as int]) {
                Err(reason) => {
                    &&& unit is None
                    &&& final(self).states() == old(self).states().update(
                        i as int,
                        FileState::Completed,
                    )
                    &&& final(self).outcomes().len() == old(self).outcomes().len() + 1
                    &&& final(self).outcomes().drop_last() == old(self).outcomes()
                    &&& is_failure_of(
                        final(self).outcomes().last(),
                        old(self).files()[i as int],
                        reason,
                    )
                },
                Ok(range) => {
                    &&& unit matches Some(u)
                    &&& u.ident == old(self).files()[i as int].ident
                    &&& u.filename@ == old(self).files()[i as int].filename
                    &&& Some(u.language) == spec_resolve_language(
                        old(self).files()[i as int].language,
                        old(self).files()[i as int].filename,
                    )
                    &&& bytes_view(u.contents) == range.of(bytes_view(*body))
                    &&& u.include_injections == old(self).files()[i as int].include_injections
                    &&& final(self).states() == old(self).states().update(
                        i as int,
                        FileState::Running,
                    )
                    &&& final(self).outcomes() == old(self).outcomes()
                },
            },
    {
        let ghost idents = file_idents(self.files());
        let ghost before = self.states@;
        assert(self.files()[i as int] == self.files@[i as int]@);
        let ident = self.files[i].ident;
        let filename = self.files[i].filename.clone();
        let include_injections = self.files[i].include_injections;
        let mut language: Option<Language> = None;
        let contents = prepare_file_contents(&self.files[i], body, &mut language);
        self.languages.set(i, language);
        match contents {
            Err(reason) => {
                self.states.set(i, FileState::Completed);
                self.outcomes.push(Outcome::Failure { ident, filename, language, reason });
                proof {
                    broadcast use vstd::seq_lib::group_to_multiset_ensures;

                    lemma_pending_moves(
                        idents,
                        before,
                        i as int,
                        FileState::Completed,
                        before.len() as int,
                    );
                    let harvested = outcome_idents(old(self).outcomes@);
                    assert(outcome_idents(self.outcomes@) =~= harvested.push(ident));
                    assert(harvested.push(ident).to_multiset().add(
                        pending(idents, before, before.len() as int).remove(ident),
                    ) =~= harvested.to_multiset().add(
                        pending(idents, before, before.len() as int),
                    ));
                    assert(self.outcomes@.drop_last() =~= old(self).outcomes@);
                }
                None
            },
            Ok(part) => {
                self.states.set(i, FileState::Running);
                proof {
                    lemma_pending_moves(
                        idents,
                        before,
                        i as int,
                        FileState::Running,
                        before.len() as int,
                    );
                }
                match language {
                    Some(language) => Some(
                        WorkUnit { ident, filename, language, contents: part, include_injections },
                    ),
                    None => None,
                }
            },
        }
    }

    /// Takes the report of a running file: records the outcome that the
    /// report gives the file, and says whether the cancellation token is to
    /// be raised. A worker's outcome must bear the file's correlation
    /// number.
    pub fn settle(&mut self, i: usize, event: TaskEvent<T>) -> (raise: bool)
        requires
            old(self).wf(),
            i < old(self).states().len(),
            old(self).states()[i as int] == FileState::Running,
            event matches TaskEvent::Finished(outcome) ==> {
                outcome.spec_ident() == old(self).files()[i as int].ident
            },
        ensures
            final(self).wf(),
            final(self).files() == old(self).files(),
            raise == spec_raises(event),
            final(self).cancelled() == (old(self).cancelled() || raise),
            advanced(old(self).states(), final(self).states()),
            final(self).states() == old(self).states().update(i as int, spec_settled_state(event)),
            final(self).outcomes().len() == old(self).outcomes().len() + 1,
            final(self).outcomes().drop_last() == old(self).outcomes(),
            final(self).outcomes().last().spec_ident() == old(self).files()[i as int].ident,
            event matches TaskEvent::Finished(outcome) ==> final(self).outcomes().last() == outcome,
            event matches TaskEvent::JoinFailed { cancelled } ==> is_failure_of(
                final(self).outcomes().last(),
                old(self).files()[i as int],
                NonFatalError::spec_from_join(cancelled),
            ),
            event is DeadlineElapsed ==> is_failure_of(
                final(self).outcomes().last(),
                old(self).files()[i as int],
                NonFatalError::TimedOut,
            ),
    {
        let ghost idents = file_idents(self.files());
        let ghost before = self.states@;
        assert(self.files()[i as int] == self.files@[i as int]@);
        let ident = self.files[i].ident;
        let language = self.languages[i];
        let (state, outcome, raise) = match event {
            TaskEvent::Finished(outcome) => (FileState::Completed, outcome, false),
            TaskEvent::JoinFailed { cancelled } => (
                FileState::JoinFailed,
                Outcome::Failure {
                    ident,
                    filename: self.files[i].filename.clone(),
                    language,
                    reason: NonFatalError::from_join(cancelled),
                },
                false,
            ),
            TaskEvent::DeadlineElapsed => (
                FileState::TimedOut,
                Outcome::Failure {
                    ident,
                    filename: self.files[i].filename.clone(),
                    language,
                    reason: NonFatalError::TimedOut,
                },
                true,
            ),
        };
        self.states.set(i, state);
        self.outcomes.push(outcome);
        if raise {
            self.cancelled = true;
        }
        proof {
            broadcast use vstd::seq_lib::group_to_multiset_ensures;

            lemma_pending_moves(idents, before, i as int, state, before.len() as int);
            let harvested = outcome_idents(old(self).outcomes@);
            assert(outcome_idents(self.outcomes@) =~= harvested.push(ident));
            assert(harvested.push(ident).to_multiset().add(
                pending(idents, before, before.len() as int).remove(ident),
            ) =~= harvested.to_multiset().add(pending(idents, before, before.len() as int)));
            assert(self.outcomes@.drop_last() =~= old(self).outcomes@);
        }
        raise
    }

    /// Where a file stands.
    pub fn state(&self, i: usize) -> (state: FileState)
        requires
            self.wf(),
            i < self.states().len(),
        ensures
            state == self.states()[i as int],
    {
        self.states[i]
    }

    /// Whether a deadline has passed.
    pub fn is_cancelled(&self) -> (cancelled: bool)
        ensures
            cancelled == self.cancelled(),
    {
        self.cancelled
    }

    /// Whether every file has its outcome.
    pub fn is_finished(&self) -> (finished: bool)
        requires
            self.wf(),
        ensures
            finished == self.finished(),
    {
        let mut i: usize = 0;
        while i < self.states.len()
            invariant
                i <= self.states.len(),
                forall|k: int| 0 <= k < i ==> (#[trigger] self.states@[k]).is_terminal(),
            decreases self.states.len() - i,
        {
            if !self.states[i].terminal() {
                assert(!self.states()[i as int].is_terminal());
                return false;
            }
            i += 1;
        }
        true
    }

    /// Hands the outcomes out once every file has its outcome: there is
    /// one outcome for each file of the request, and the correlation
    /// numbers of the outcomes are those of the files, each as often as it
    /// occurs among the files. The order is the order in which the
    /// outcomes came.
    pub fn finish(self) -> (outcomes: Vec<Outcome<T>>)
        requires
            self.wf(),
            self.finished(),
        ensures
            outcomes@ == self.outcomes(),
            outcomes@.len() == self.files().len(),
            outcome_idents(outcomes@).to_multiset() == file_idents(self.files()).to_multiset(),
    {
        proof {
            broadcast use vstd::seq_lib::group_to_multiset_ensures;

            let idents = file_idents(self.files());
            assert forall|k: int| 0 <= k < self.states@.len() implies (
            #[trigger] self.states@[k]).is_terminal() by {
                assert(self.states()[k].is_terminal());
            }
            lemma_pending_done(idents, self.states@, idents.len() as int);
            assert(outcome_idents(self.outcomes@).to_multiset().add(Multiset::<u16>::empty())
                =~= outcome_idents(self.outcomes@).to_multiset());
            assert(outcome_idents(self.outcomes@).len() == idents.len()) by {
                outcome_idents(self.outcomes@).to_multiset_ensures();
                idents.to_multiset_ensures();
            }
        }
        self.outcomes
    }
}

/// Whether a document answers a file: it bears the file's correlation
/// number and name and the number of the language in which the file was
/// read. A file that fails before any work is answered by its failure. A
/// file that is work is answered by a payload and no error, or without a
/// payload as timed out, as an unknown language or as an unknown error.
pub open spec fn answers(file: FileView, document: DocumentSummary) -> bool {
    &&& document.ident == file.ident
    &&& document.filename == file.filename
    &&& document.language == match spec_resolve_language(file.language, file.filename) {
        Some(language) => language.spec_tag(),
        None => Language::Unspecified.spec_tag(),
    }
    &&& match spec_prepare(file) {
        Err(reason) => document.error_code == reason.spec_error_code().spec_tag()
            && !document.has_payload,
        Ok(_) => if document.has_payload {
            document.error_code == ErrorCode::NoError.spec_tag()
        } else {
            document.error_code == ErrorCode::TimedOut.spec_tag() || document.error_code
                == ErrorCode::UnknownLanguage.spec_tag() || document.error_code
                == ErrorCode::UnknownError.spec_tag()
        },
    }
}

/// A file without contents, or with empty contents, whose language is
/// found is answered with no error and without a payload.
pub proof fn lemma_empty_file_is_no_error(file: FileView, document: DocumentSummary)
    requires
        answers(file, document),
        spec_resolve_language(file.language, file.filename) is Some,
        file.contents matches Some(range) ==> range.len == 0,
    ensures
        document.error_code == ErrorCode::NoError.spec_tag(),
        !document.has_payload,
{
}

/// A file that declares no language, and whose name has no extension that
/// selects one, is answered as an unknown language.
pub proof fn lemma_unknown_extension_is_unknown_language(file: FileView, document: DocumentSummary)
    requires
        answers(file, document),
        file.language == Language::Unspecified.spec_tag(),
        spec_from_path(file.filename) is None,
    ensures
        document.error_code == ErrorCode::UnknownLanguage.spec_tag(),
        !document.has_payload,
{
}

/// Documents that answer the files of a request one for one bear the
/// correlation numbers of the files, each as often as it occurs among the
/// files.
pub proof fn lemma_answers_keep_idents(files: Seq<FileView>, documents: Seq<DocumentSummary>)
    requires
        documents.len() == files.len(),
        forall|i: int| 0 <= i < files.len() ==> answers(#[trigger] files[i], documents[i]),
    ensures
        summary_idents(documents) == file_idents(files),
        summary_idents(documents).to_multiset() == file_idents(files).to_multiset(),
{
    assert forall|i: int| 0 <= i < files.len() implies summary_idents(documents)[i] == file_idents(
        files,
    )[i] by {
        assert(answers(files[i], documents[i]));
    }
    assert(summary_idents(documents) =~= file_idents(files));
}

/// The response that is built from the outcomes that a dispatch hands out
/// has one document for each file of the request, and its documents bear
/// the correlation numbers of the files, each as often as it occurs among
/// the files, in whatever order the outcomes came.
pub proof fn lemma_response_answers_request<T>(
    files: Seq<FileView>,
    outcomes: Seq<Outcome<T>>,
    documents: Seq<DocumentSummary>,
)
    requires
        outcomes.len() == files.len(),
        outcome_idents(outcomes).to_multiset() == file_idents(files).to_multiset(),
        documents == outcome_summaries(outcomes),
    ensures
        documents.len() == files.len(),
        summary_idents(documents).to_multiset() == file_idents(files).to_multiset(),
{
    assert(summary_idents(documents) =~= outcome_idents(outcomes));
}

/// Whether an outcome is that of a file of a request with this body. Its
/// document answers the file. A file that fails before any work has the
/// failure that says so. A file that is work has, on success, the payload
/// that the processor makes of the file's contents, and on failure the
/// language in which it was read.
pub open spec fn settles<P: Processor>(
    file: FileView,
    body: Seq<u8>,
    outcome: Outcome<P::Output>,
) -> bool {
    &&& answers(file, spec_summary(outcome))
    &&& match spec_prepare(file) {
        Err(reason) => is_failure_of(outcome, file, reason),
        Ok(range) => match outcome {
            Outcome::Success { contents, .. } => P::is_output_of(contents@, range.of(body)),
            Outcome::Failure { language, .. } => language == spec_resolve_language(
                file.language,
                file.filename,
            ),
        },
    }
}

/// Whether a response is that of a request with these files and this
/// body, whose files had these outcomes: there is one outcome for each
/// file, in the order of the files, and it is that of the file; bytes are
/// the response to these outcomes; and no bytes come back exactly where
/// that response would be longer than an envelope may be.
pub open spec fn handled<P: Processor>(
    files: Seq<FileView>,
    body: Seq<u8>,
    outcomes: Seq<Outcome<P::Output>>,
    response: Result<Vec<u8>, FatalError>,
) -> bool {
    &&& outcomes.len() == files.len()
    &&& forall|i: int|
        0 <= i < files.len() ==> settles::<P>(files[i], body, #[trigger] outcomes[i])
    &&& match response {
        Ok(bytes) => {
            &&& bytes@.len() == P::response_size(outcomes)
            &&& P::response_size(outcomes) <= MAX_ENVELOPE_SIZE
            &&& P::is_response(bytes@, outcomes)
            &&& P::response_summaries(bytes@) == Some(outcome_summaries(outcomes))
        },
        Err(error) => error == FatalError::ResponseTooLarge && P::response_size(outcomes)
            > MAX_ENVELOPE_SIZE,
    }
}

/// Answers a request on the calling thread, one file after the other, and
/// encodes the response with the processor `P`. The embedding program
/// takes the same steps with a worker and a deadline for each file.
///
/// A request that is rejected is answered by its error. Otherwise every
/// file has its outcome, and the response is built from the outcomes in
/// the order of the request: it has one document for each file, and each
/// document answers its file. The response fails as too large exactly
/// where it would be longer than an envelope may be; so a request whose
/// response fits, whatever the highlighter answers, is answered.
pub fn generic_handler<P: Processor>(
    state: &Server,
    registry: &Registry,
    worker: &mut WorkerState,
    cancel: &CancellationToken,
    body: &bytes::Bytes,
) -> (response: Result<Vec<u8>, FatalError>)
    ensures
        match spec_accept(*state, bytes_view(*body)) {
            Err(error) => response == Err::<Vec<u8>, FatalError>(error),
            Ok(admission) => exists|outcomes: Seq<Outcome<P::Output>>| #[trigger]
                handled::<P>(admission.files, bytes_view(*body), outcomes, response),
        },
        spec_accept(*state, bytes_view(*body)) matches Ok(admission) ==> match response {
            Ok(bytes) => {
                &&& P::response_summaries(bytes@) matches Some(documents)
                &&& documents.len() == admission.files.len()
                &&& forall|i: int|
                    0 <= i < admission.files.len() ==> answers(
                        #[trigger] admission.files[i],
                        documents[i],
                    )
                &&& summary_idents(documents).to_multiset() == file_idents(
                    admission.files,
                ).to_multiset()
            },
            Err(error) => error == FatalError::ResponseTooLarge,
        },
{
    let admission = match accept(state, body) {
        Err(error) => { return Err(error); },
        Ok(admission) => admission,
    };
    let ghost files = admission@.files;
    let ghost whole = bytes_view(*body);
    assert(spec_accept(*state, whole) matches Ok(a) && a.files == files);
    let mut dispatch: Dispatch<P::Output> = Dispatch::new(admission.files);
    let n = dispatch.len();
    let mut i: usize = 0;
    while i < n
        invariant
            dispatch.wf(),
            dispatch.files() == files,
            dispatch.states().len() == n,
            n == files.len(),
            whole == bytes_view(*body),
            spec_accept(*state, whole) matches Ok(a) && a.files == files,
            contents_within(files, whole),
            i <= n,
            forall|k: int| 0 <= k < i ==> (#[trigger] dispatch.states()[k]).is_terminal(),
            forall|k: int| i <= k < n ==> #[trigger] dispatch.states()[k] == FileState::Queued,
            dispatch.outcomes().len() == i,
            forall|k: int|
                0 <= k < i ==> settles::<P>(files[k], whole, #[trigger] dispatch.outcomes()[k]),
        decreases n - i,
    {
        let ghost before = dispatch.outcomes();
        match dispatch.launch(i, body) {
            None => {},
            Some(unit) => {
                let outcome = P::process(
                    worker,
                    registry,
                    unit.ident,
                    unit.filename,
                    unit.language,
                    bytes_of(&unit.contents),
                    unit.include_injections,
                    cancel.flag(),
                );
                dispatch.settle(i, TaskEvent::Finished(outcome));
            },
        }
        proof {
            assert(dispatch.outcomes().drop_last() == before);
            assert forall|k: int| 0 <= k < i implies settles::<P>(
                files[k],
                whole,
                #[trigger] dispatch.outcomes()[k],
            ) by {
                assert(dispatch.outcomes()[k] == before[k]);
            }
            assert(dispatch.outcomes()[i as int] == dispatch.outcomes().last());
            assert(settles::<P>(files[i as int], whole, dispatch.outcomes()[i as int]));
        }
        i += 1;
    }
    let outcomes = dispatch.finish();
    let response = match P::build_response(&outcomes) {
        None => Err(FatalError::ResponseTooLarge),
        Some(bytes) => Ok(bytes),
    };
    proof {
        assert(handled::<P>(files, whole, outcomes@, response));
        assert(exists|outcomes: Seq<Outcome<P::Output>>| #[trigger]
            handled::<P>(files, whole, outcomes, response));
        if response is Ok {
            let documents = outcome_summaries(outcomes@);
            assert forall|k: int| 0 <= k < files.len() implies answers(
                #[trigger] files[k],
                documents[k],
            ) by {
                assert(settles::<P>(files[k], whole, outcomes@[k]));
            }
            lemma_answers_keep_idents(files, documents);
        }
    }
    response
}

} // verus!
