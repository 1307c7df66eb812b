//! Keeping one artifact in place: the destination is kept where its content
//! has the expected digest, and is fetched, checked and written where it is
//! missing or has another content.
//!
//! The decisions are made here. Reading the destination, fetching from the
//! remote store and writing the destination are left to the caller, which
//! performs the action that a state asks for and reports what happened.

use crate::digest::{content_is_valid, verify};
use vstd::prelude::*;

verus! {

/// One artifact: where it is fetched from, the hexadecimal digest its
/// content must have, the size it is said to have, and where it is kept.
/// The size is not checked.
pub struct ArtifactDescriptor {
    url: String,
    digest: String,
    size: u64,
    destination: String,
}

/// What an `ArtifactDescriptor` stands for.
pub struct ArtifactModel {
    pub url: Seq<char>,
    pub digest: Seq<char>,
    pub size: u64,
    pub destination: Seq<char>,
}

impl View for ArtifactDescriptor {
    type V = ArtifactModel;

    closed spec fn view(&self) -> ArtifactModel {
        ArtifactModel {
            url: self.url@,
            digest: self.digest@,
            size: self.size,
            destination: self.destination@,
        }
    }
}

impl ArtifactDescriptor {
    /// Describes an artifact.
    pub fn new(url: String, digest: String, size: u64, destination: String) -> (descriptor:
        ArtifactDescriptor)
        ensures
            descriptor@ == (ArtifactModel {
                url: url@,
                digest: digest@,
                size,
                destination: destination@,
            }),
    {
        ArtifactDescriptor { url, digest, size, destination }
    }

    /// Where the artifact is fetched from.
    pub fn url(&self) -> (url: &String)
        ensures
            url@ == self@.url,
    {
        &self.url
    }

    /// The hexadecimal digest that the content must have.
    pub fn digest(&self) -> (digest: &String)
        ensures
            digest@ == self@.digest,
    {
        &self.digest
    }

    /// The size that the artifact is said to have.
    pub fn size(&self) -> (size: u64)
        ensures
            size == self@.size,
    {
        self.size
    }

    /// Where the artifact is kept.
    pub fn destination(&self) -> (destination: &String)
        ensures
            destination@ == self@.destination,
    {
        &self.destination
    }

    /// Whether `content` is the content of this artifact: whether its digest
    /// is the expected one.
    pub fn accepts(&self, content: &[u8]) -> (valid: bool)
        ensures
            valid == content_is_valid(content@, self@.digest),
    {
        verify(content, self.digest.as_str())
    }
}

/// How an artifact came to be in place.
#[derive(Clone, Copy, Debug, PartialEq, Eq, Structural)]
pub enum SyncOutcome {
    /// The destination held the expected content; nothing was fetched.
    AlreadyValid,
    /// The content was fetched, checked and written.
    Fetched,
}

/// Why an artifact is not in place.
#[derive(Debug, PartialEq, Eq)]
pub enum SyncError {
    /// The fetch did not complete.
    Transport(String),
    /// What was fetched does not have the expected digest. Nothing of it
    /// was written.
    Integrity,
    /// The destination could not be read, or its directories could not be
    /// made, or it could not be written.
    Filesystem(String),
}

/// What a `SyncError` stands for.
pub enum SyncErrorModel {
    Transport(Seq<char>),
    Integrity,
    Filesystem(Seq<char>),
}

impl View for SyncError {
    type V = SyncErrorModel;

    open spec fn view(&self) -> SyncErrorModel {
        match *self {
            SyncError::Transport(reason) => SyncErrorModel::Transport(reason@),
            SyncError::Integrity => SyncErrorModel::Integrity,
            SyncError::Filesystem(reason) => SyncErrorModel::Filesystem(reason@),
        }
    }
}

/// What the result for one artifact stands for.
pub open spec fn result_model(result: Result<SyncOutcome, SyncError>) -> Result<
    SyncOutcome,
    SyncErrorModel,
> {
    match result {
        Ok(outcome) => Ok(outcome),
        Err(error) => Err(error@),
    }
}

/// What the caller is asked to do next.
#[derive(Clone, Copy, Debug, PartialEq, Eq, Structural)]
pub enum EnsureAction {
    /// Look whether the destination exists, and read it if it does.
    ProbeDestination,
    /// Fetch the whole content from the artifact's URL.
    Fetch,
    /// Make the missing parent directories of the destination and write the
    /// pending bytes, so that no reader sees a part of them.
    Store,
    /// Nothing: the result stands.
    Finish,
}

/// What the caller reports after an action.
pub enum EnsureEvent {
    /// The destination does not exist.
    Missing,
    /// The destination exists and holds these bytes.
    Present(Vec<u8>),
    /// The destination exists and could not be read.
    Unreadable(String),
    /// The fetch gave these bytes.
    Received(Vec<u8>),
    /// The fetch did not complete.
    FetchFailed(String),
    /// The pending bytes were written.
    Stored,
    /// The directories could not be made or the bytes could not be written.
    StoreFailed(String),
}

/// What an `EnsureEvent` stands for.
pub enum EventModel {
    Missing,
    Present(Seq<u8>),
    Unreadable(Seq<char>),
    Received(Seq<u8>),
    FetchFailed(Seq<char>),
    Stored,
    StoreFailed(Seq<char>),
}

impl View for EnsureEvent {
    type V = EventModel;

    open spec fn view(&self) -> EventModel {
        match *self {
            EnsureEvent::Missing => EventModel::Missing,
            EnsureEvent::Present(bytes) => EventModel::Present(bytes@),
            EnsureEvent::Unreadable(reason) => EventModel::Unreadable(reason@),
            EnsureEvent::Received(bytes) => EventModel::Received(bytes@),
            EnsureEvent::FetchFailed(reason) => EventModel::FetchFailed(reason@),
            EnsureEvent::Stored => EventModel::Stored,
            EnsureEvent::StoreFailed(reason) => EventModel::StoreFailed(reason@),
        }
    }
}

/// How far the work on one artifact has come.
pub enum EnsureState {
    /// Nothing is known of the destination yet.
    Probing,
    /// The destination is missing or has another content.
    Fetching,
    /// These bytes were fetched and have the expected digest; they are to be
    /// written.
    Storing(Vec<u8>),
    /// The work has ended with this result.
    Done(Result<SyncOutcome, SyncError>),
}

/// What an `EnsureState` stands for.
pub enum StateModel {
    Probing,
    Fetching,
    Storing(Seq<u8>),
    Done(Result<SyncOutcome, SyncErrorModel>),
}

impl View for EnsureState {
    type V = StateModel;

    open spec fn view(&self) -> StateModel {
        match *self {
            EnsureState::Probing => StateModel::Probing,
            EnsureState::Fetching => StateModel::Fetching,
            EnsureState::Storing(bytes) => StateModel::Storing(bytes@),
            EnsureState::Done(result) => StateModel::Done(result_model(result)),
        }
    }
}

/// The action that a state asks for.
pub open spec fn action_of(state: StateModel) -> EnsureAction {
    match state {
        StateModel::Probing => EnsureAction::ProbeDestination,
        StateModel::Fetching => EnsureAction::Fetch,
        StateModel::Storing(_) => EnsureAction::Store,
        StateModel::Done(_) => EnsureAction::Finish,
    }
}

/// The state that follows `state` when `event` is reported, for an artifact
/// whose content must have the digest `expected`.
///
/// A destination with the expected content ends the work at once. A missing
/// destination, or one with another content, leads to a fetch. Fetched bytes
/// with the expected digest are to be written; others end the work with an
/// integrity error. A report that does not answer the action asked for
/// changes nothing.
pub open spec fn next_state(state: StateModel, expected: Seq<char>, event: EventModel) -> StateModel {
    match (state, event) {
        (StateModel::Probing, EventModel::Missing) => StateModel::Fetching,
        (StateModel::Probing, EventModel::Present(bytes)) => if content_is_valid(bytes, expected) {
            StateModel::Done(Ok(SyncOutcome::AlreadyValid))
        } else {
            StateModel::Fetching
        },
        (StateModel::Probing, EventModel::Unreadable(reason)) => StateModel::Done(
            Err(SyncErrorModel::Filesystem(reason)),
        ),
        (StateModel::Fetching, EventModel::Received(bytes)) => if content_is_valid(bytes, expected) {
            StateModel::Storing(bytes)
        } else {
            StateModel::Done(Err(SyncErrorModel::Integrity))
        },
        (StateModel::Fetching, EventModel::FetchFailed(reason)) => StateModel::Done(
            Err(SyncErrorModel::Transport(reason)),
        ),
        (StateModel::Storing(_), EventModel::Stored) => StateModel::Done(Ok(SyncOutcome::Fetched)),
        (StateModel::Storing(_), EventModel::StoreFailed(reason)) => StateModel::Done(
            Err(SyncErrorModel::Filesystem(reason)),
        ),
        _ => state,
    }
}

impl EnsureState {
    /// The state in which the work on an artifact begins.
    pub fn start() -> (state: EnsureState)
        ensures
            state@ == StateModel::Probing,
    {
        EnsureState::Probing
    }

    /// What the caller is to do next.
    pub fn action(&self) -> (action: EnsureAction)
        ensures
            action == action_of(self@),
    {
        match self {
            EnsureState::Probing => EnsureAction::ProbeDestination,
            EnsureState::Fetching => EnsureAction::Fetch,
            EnsureState::Storing(_) => EnsureAction::Store,
            EnsureState::Done(_) => EnsureAction::Finish,
        }
    }

    /// The bytes that are to be written, where the state asks for that.
    pub fn pending_bytes(&self) -> (pending: Option<&Vec<u8>>)
        ensures
            match pending {
                Some(bytes) => self@ == StateModel::Storing(bytes@),
                None => !(self@ is Storing),
            },
    {
        match self {
            EnsureState::Storing(bytes) => Some(bytes),
            _ => None,
        }
    }

    /// The result, where the work has ended.
    pub fn into_result(self) -> (result: Option<Result<SyncOutcome, SyncError>>)
        ensures
            match result {
                Some(result) => self@ == StateModel::Done(result_model(result)),
                None => !(self@ is Done),
            },
    {
        match self {
            EnsureState::Done(result) => Some(result),
            _ => None,
        }
    }

    /// Takes in what the caller reports and gives the state that follows.
    pub fn step(self, descriptor: &ArtifactDescriptor, event: EnsureEvent) -> (next: EnsureState)
        ensures
            next@ == next_state(self@, descriptor@.digest, event@),
    {
        match self {
            EnsureState::Probing => match event {
                EnsureEvent::Missing => EnsureState::Fetching,
                EnsureEvent::Present(bytes) => {
                    if descriptor.accepts(bytes.as_slice()) {
                        EnsureState::Done(Ok(SyncOutcome::AlreadyValid))
                    } else {
                        EnsureState::Fetching
                    }
                },
                EnsureEvent::Unreadable(reason) => EnsureState::Done(Err(SyncError::Filesystem(reason))),
                _ => EnsureState::Probing,
            },
            EnsureState::Fetching => match event {
                EnsureEvent::Received(bytes) => {
                    if descriptor.accepts(bytes.as_slice()) {
                        EnsureState::Storing(bytes)
                    } else {
                        EnsureState::Done(Err(SyncError::Integrity))
                    }
                },
                EnsureEvent::FetchFailed(reason) => EnsureState::Done(Err(SyncError::Transport(reason))),
                _ => EnsureState::Fetching,
            },
            EnsureState::Storing(bytes) => match event {
                EnsureEvent::Stored => EnsureState::Done(Ok(SyncOutcome::Fetched)),
                EnsureEvent::StoreFailed(reason) => EnsureState::Done(
                    Err(SyncError::Filesystem(reason)),
                ),
                _ => EnsureState::Storing(bytes),
            },
            EnsureState::Done(result) => EnsureState::Done(result),
        }
    }
}

/// What a destination holds.
pub enum Destination {
    Missing,
    Present(Seq<u8>),
    Unreadable(Seq<char>),
}

/// What lies outside one run of the work on an artifact: the answer of the
/// remote store to a fetch (the bytes, or why it failed), and whether the
/// destination can be written (`None`) or why not.
pub struct Surroundings {
    pub remote: Result<Seq<u8>, Seq<char>>,
    pub store_failure: Option<Seq<char>>,
}

/// A run of the work on an artifact: its state, what the destination holds,
/// and how many fetches were made.
pub struct Run {
    pub state: StateModel,
    pub destination: Destination,
    pub fetches: nat,
}

/// The run after the caller has performed the action that `run.state` asks
/// for and has reported what happened.
pub open spec fn advance(run: Run, expected: Seq<char>, surroundings: Surroundings) -> Run {
    match run.state {
        StateModel::Probing => Run {
            state: next_state(
                run.state,
                expected,
                match run.destination {
                    Destination::Missing => EventModel::Missing,
                    Destination::Present(bytes) => EventModel::Present(bytes),
                    Destination::Unreadable(reason) => EventModel::Unreadable(reason),
                },
            ),
            ..run
        },
        StateModel::Fetching => Run {
            state: next_state(
                run.state,
                expected,
                match surroundings.remote {
                    Ok(bytes) => EventModel::Received(bytes),
                    Err(reason) => EventModel::FetchFailed(reason),
                },
            ),
            fetches: run.fetches + 1,
            ..run
        },
        StateModel::Storing(bytes) => match surroundings.store_failure {
            None => Run {
                state: next_state(run.state, expected, EventModel::Stored),
                destination: Destination::Present(bytes),
                ..run
            },
            Some(reason) => Run {
                state: next_state(run.state, expected, EventModel::StoreFailed(reason)),
                ..run
            },
        },
        StateModel::Done(_) => run,
    }
}

/// The whole work on an artifact whose destination holds `destination` at
/// the start: a probe, and where they are asked for a fetch and a write.
pub open spec fn ensure_run(expected: Seq<char>, destination: Destination, surroundings: Surroundings) -> Run {
    let start = Run { state: StateModel::Probing, destination, fetches: 0 };
    advance(advance(advance(start, expected, surroundings), expected, surroundings), expected, surroundings)
}

/// The work on an artifact always ends: after the probe, a fetch and a write
/// at most, the state holds a result.
pub proof fn lemma_ensure_ends(expected: Seq<char>, destination: Destination, surroundings: Surroundings)
    ensures
        ensure_run(expected, destination, surroundings).state is Done,
        ensure_run(expected, destination, surroundings).fetches <= 1,
{
}

/// Where the destination holds the expected content, the work ends with
/// `AlreadyValid` without a fetch and leaves the destination as it is,
/// whatever the remote store would answer.
pub proof fn lemma_valid_destination_is_kept(
    expected: Seq<char>,
    content: Seq<u8>,
    surroundings: Surroundings,
)
    requires
        content_is_valid(content, expected),
    ensures
        ensure_run(expected, Destination::Present(content), surroundings) == (Run {
            state: StateModel::Done(Ok(SyncOutcome::AlreadyValid)),
            destination: Destination::Present(content),
            fetches: 0,
        }),
{
}

/// The work is idempotent. Where a first run has put the artifact in place,
/// a second run for the same descriptor, on the destination as the first run
/// left it, ends with `AlreadyValid`, makes no fetch and leaves the
/// destination unchanged, whatever lies outside it.
pub proof fn lemma_ensure_is_idempotent(
    expected: Seq<char>,
    destination: Destination,
    first: Surroundings,
    second: Surroundings,
)
    requires
        ensure_run(expected, destination, first).state matches StateModel::Done(Ok(_)),
    ensures
        ensure_run(expected, ensure_run(expected, destination, first).destination, second) == (Run {
            state: StateModel::Done(Ok(SyncOutcome::AlreadyValid)),
            destination: ensure_run(expected, destination, first).destination,
            fetches: 0,
        }),
{
}

/// A changed destination is noticed. Where the destination holds a content that does
/// not have the expected digest, the work makes exactly one fetch. It ends
/// with `Fetched`, and with the fetched bytes at the destination, exactly
/// when the remote store answers with bytes that have the expected digest
/// and the destination can be written; in every other case the destination
/// stays as it was, and bytes with another digest are never written.
pub proof fn lemma_changed_destination_is_fetched_again(
    expected: Seq<char>,
    content: Seq<u8>,
    surroundings: Surroundings,
)
    requires
        !content_is_valid(content, expected),
    ensures
        ensure_run(expected, Destination::Present(content), surroundings).fetches == 1,
        ensure_run(expected, Destination::Present(content), surroundings).state == (
        match surroundings.remote {
            Ok(bytes) => if content_is_valid(bytes, expected) {
                match surroundings.store_failure {
                    None => StateModel::Done(Ok(SyncOutcome::Fetched)),
                    Some(reason) => StateModel::Done(Err(SyncErrorModel::Filesystem(reason))),
                }
            } else {
                StateModel::Done(Err(SyncErrorModel::Integrity))
            },
            Err(reason) => StateModel::Done(Err(SyncErrorModel::Transport(reason))),
        }),
        ensure_run(expected, Destination::Present(content), surroundings).destination == (
        match surroundings.remote {
            Ok(bytes) => if content_is_valid(bytes, expected) && surroundings.store_failure is None {
                Destination::Present(bytes)
            } else {
                Destination::Present(content)
            },
            Err(_) => Destination::Present(content),
        }),
{
}

/// Whatever the destination held and whatever happened, a destination that
/// the work has written holds a content with the expected digest: a run
/// that ends well leaves valid content in place.
pub proof fn lemma_success_leaves_valid_content(
    expected: Seq<char>,
    destination: Destination,
    surroundings: Surroundings,
)
    requires
        ensure_run(expected, destination, surroundings).state matches StateModel::Done(Ok(_)),
    ensures
        ensure_run(expected, destination, surroundings).destination matches Destination::Present(bytes)
            && content_is_valid(bytes, expected),
{
}

} // verus!
