//! How a hook and its host talk.
//!
//! A hook does no work outside of this library itself. It asks its host for one thing at a time,
//! and goes on when it gets the reply, until it stops.

use crate::event_log::{event_views, Event, EventTransactionId, EventView, Timestamp};
use crate::oid::{NonZeroOid, ParseOidError};
use crate::packed_refs::PackedReferences;
use crate::reference_transaction::{
    line_views, optional_bytes, update_views, ParsedReferenceTransactionLine, RefUpdate,
};
use vstd::prelude::*;

verus! {

/// What a hook asks of its host.
#[derive(Debug, PartialEq, Eq)]
pub enum Request {
    /// Read the clock. Replied to with `Reply::Clock`.
    ReadClock,
    /// Write a line for the user. Replied to with `Reply::Done`.
    WriteLine(String),
    /// Open the repository of the current directory and its event log. Replied to with
    /// `Reply::Done`.
    OpenEventLog,
    /// Begin a transaction of the event log, on behalf of the hook of this name and at the time
    /// that the clock showed. Replied to with `Reply::TransactionId`.
    MakeTransactionId(String),
    /// Find out which commit `HEAD` points to. Replied to with `Reply::Head`.
    ResolveHead,
    /// Look up a commit. Replied to with `Reply::Commit`.
    FindCommit(NonZeroOid),
    /// Keep a commit from being collected as garbage. Replied to with `Reply::Done`.
    MarkCommitReachable(NonZeroOid),
    /// Describe a commit. Replied to with `Reply::Description`.
    DescribeCommit(NonZeroOid),
    /// Read the `packed-refs` file. Replied to with `Reply::PackedRefs`.
    ReadPackedRefs,
    /// Read the lines that Git hands to the hook. Replied to with `Reply::Lines`.
    ReadLines,
    /// Add events to the event log. Replied to with `Reply::Done`.
    AddEvents(Vec<Event>),
}

/// What a host replies.
#[derive(Debug, PartialEq, Eq)]
pub enum Reply {
    /// It is done.
    Done,
    /// It failed.
    Failed,
    /// What the clock shows, or `None` if that is before the Unix epoch.
    Clock(Option<Timestamp>),
    /// The transaction's ID.
    TransactionId(EventTransactionId),
    /// The commit that `HEAD` points to, if there is one.
    Head(Option<NonZeroOid>),
    /// The commit, and when it says that it was made.
    Commit { oid: NonZeroOid, timestamp: Timestamp },
    /// The description.
    Description(String),
    /// The contents of the `packed-refs` file, if there is one.
    PackedRefs(Option<Vec<u8>>),
    /// The lines; `None` stands for one that could not be read.
    Lines(Vec<Option<Vec<u8>>>),
}

/// Where a hook stands: which request it has made, and what it has to remember.
#[derive(Debug)]
pub enum HookState {
    /// `post-checkout` reads the clock.
    CheckoutClock { previous: String, current: String },
    /// `post-checkout` says that it is at work.
    CheckoutAnnounce { previous: String, current: String, timestamp: Timestamp },
    /// `post-checkout` opens the event log.
    CheckoutOpen { previous: String, current: String, timestamp: Timestamp },
    /// `post-checkout` begins its transaction.
    CheckoutBegin { previous: String, current: String, timestamp: Timestamp },
    /// `post-commit` or `post-merge` reads the clock.
    CommitClock { hook_name: String },
    /// `post-commit` or `post-merge` opens the event log.
    CommitOpen { hook_name: String },
    /// `post-commit` or `post-merge` resolves `HEAD`.
    CommitResolve { hook_name: String },
    /// `post-commit` or `post-merge` looks up the commit.
    CommitFind { hook_name: String, head: NonZeroOid },
    /// `post-commit` or `post-merge` keeps the commit alive.
    CommitMark { hook_name: String, oid: NonZeroOid, timestamp: Timestamp },
    /// `post-commit` or `post-merge` begins its transaction.
    CommitBegin { oid: NonZeroOid, timestamp: Timestamp },
    /// `post-commit` or `post-merge` records the commit.
    CommitRecord { oid: NonZeroOid },
    /// `post-commit` or `post-merge` has the commit described.
    CommitDescribe,
    /// `reference-transaction` reads the clock.
    TransactionClock,
    /// `reference-transaction` opens the event log.
    TransactionOpen { clock: Option<Timestamp> },
    /// `reference-transaction` begins its transaction.
    TransactionBegin { clock: Option<Timestamp> },
    /// `reference-transaction` reads the `packed-refs` file.
    TransactionPacked { clock: Option<Timestamp>, event_tx_id: EventTransactionId },
    /// `reference-transaction` reads its lines.
    TransactionLines {
        clock: Option<Timestamp>,
        event_tx_id: EventTransactionId,
        packed: PackedReferences,
    },
    /// `reference-transaction` says which references it is at work on.
    TransactionAnnounce {
        clock: Option<Timestamp>,
        event_tx_id: EventTransactionId,
        updates: Vec<ParsedReferenceTransactionLine>,
    },
    /// The last request is made.
    Finish,
}

/// Why a hook gave up.
#[derive(Clone, Copy, Debug, PartialEq, Eq)]
pub enum AbortReason {
    /// The host failed to do what it was asked for.
    RequestFailed,
    /// The host's reply does not fit the request.
    UnexpectedReply,
    /// The clock shows a time before the Unix epoch.
    ClockBeforeEpoch,
    /// What `HEAD` is said to have been is no object ID.
    InvalidPreviousOid(ParseOidError),
    /// What `HEAD` is said to be is no object ID.
    InvalidCurrentOid(ParseOidError),
}

/// How a hook ended.
#[derive(Clone, Copy, Debug, PartialEq, Eq)]
pub enum Outcome {
    Completed,
    Aborted(AbortReason),
}

/// What a hook does next.
#[derive(Debug)]
pub enum Step {
    /// It asks for something, and goes on from `state` when it gets the reply.
    Ask { request: Request, state: HookState },
    /// It is at its end.
    Stop(Outcome),
}

/// What a request says.
#[verifier::ext_equal]
pub enum RequestView {
    ReadClock,
    WriteLine(Seq<char>),
    OpenEventLog,
    MakeTransactionId(Seq<char>),
    ResolveHead,
    FindCommit(Seq<u8>),
    MarkCommitReachable(Seq<u8>),
    DescribeCommit(Seq<u8>),
    ReadPackedRefs,
    ReadLines,
    AddEvents(Seq<EventView>),
}

/// What a reply says.
#[verifier::ext_equal]
pub enum ReplyView {
    Done,
    Failed,
    Clock(Option<Timestamp>),
    TransactionId(EventTransactionId),
    Head(Option<Seq<u8>>),
    Commit { oid: Seq<u8>, timestamp: Timestamp },
    Description(Seq<char>),
    PackedRefs(Option<Seq<u8>>),
    Lines(Seq<Option<Seq<u8>>>),
}

/// What a state remembers.
#[verifier::ext_equal]
pub enum StateView {
    CheckoutClock { previous: Seq<char>, current: Seq<char> },
    CheckoutAnnounce { previous: Seq<char>, current: Seq<char>, timestamp: Timestamp },
    CheckoutOpen { previous: Seq<char>, current: Seq<char>, timestamp: Timestamp },
    CheckoutBegin { previous: Seq<char>, current: Seq<char>, timestamp: Timestamp },
    CommitClock { hook_name: Seq<char> },
    CommitOpen { hook_name: Seq<char> },
    CommitResolve { hook_name: Seq<char> },
    CommitFind { hook_name: Seq<char>, head: Seq<u8> },
    CommitMark { hook_name: Seq<char>, oid: Seq<u8>, timestamp: Timestamp },
    CommitBegin { oid: Seq<u8>, timestamp: Timestamp },
    CommitRecord { oid: Seq<u8> },
    CommitDescribe,
    TransactionClock,
    TransactionOpen { clock: Option<Timestamp> },
    TransactionBegin { clock: Option<Timestamp> },
    TransactionPacked { clock: Option<Timestamp>, event_tx_id: EventTransactionId },
    TransactionLines {
        clock: Option<Timestamp>,
        event_tx_id: EventTransactionId,
        packed: Map<Seq<u8>, Seq<u8>>,
    },
    TransactionAnnounce {
        clock: Option<Timestamp>,
        event_tx_id: EventTransactionId,
        updates: Seq<RefUpdate>,
    },
    Finish,
}

/// What a step says.
#[verifier::ext_equal]
pub enum StepView {
    Ask { request: RequestView, state: StateView },
    Stop(Outcome),
}

impl View for Request {
    type V = RequestView;

    open spec fn view(&self) -> RequestView {
        match self {
            Request::ReadClock => RequestView::ReadClock,
            Request::WriteLine(line) => RequestView::WriteLine(line@),
            Request::OpenEventLog => RequestView::OpenEventLog,
            Request::MakeTransactionId(name) => RequestView::MakeTransactionId(name@),
            Request::ResolveHead => RequestView::ResolveHead,
            Request::FindCommit(oid) => RequestView::FindCommit(oid@),
            Request::MarkCommitReachable(oid) => RequestView::MarkCommitReachable(oid@),
            Request::DescribeCommit(oid) => RequestView::DescribeCommit(oid@),
            Request::ReadPackedRefs => RequestView::ReadPackedRefs,
            Request::ReadLines => RequestView::ReadLines,
            Request::AddEvents(events) => RequestView::AddEvents(event_views(events@)),
        }
    }
}

impl View for Reply {
    type V = ReplyView;

    open spec fn view(&self) -> ReplyView {
        match self {
            Reply::Done => ReplyView::Done,
            Reply::Failed => ReplyView::Failed,
            Reply::Clock(clock) => ReplyView::Clock(*clock),
            Reply::TransactionId(id) => ReplyView::TransactionId(*id),
            Reply::Head(head) => ReplyView::Head(
                match head {
                    Some(oid) => Some(oid@),
                    None => None,
                },
            ),
            Reply::Commit { oid, timestamp } => ReplyView::Commit {
                oid: oid@,
                timestamp: *timestamp,
            },
            Reply::Description(description) => ReplyView::Description(description@),
            Reply::PackedRefs(file) => ReplyView::PackedRefs(optional_bytes(*file)),
            Reply::Lines(lines) => ReplyView::Lines(line_views(lines@)),
        }
    }
}

impl View for HookState {
    type V = StateView;

    open spec fn view(&self) -> StateView {
        match self {
            HookState::CheckoutClock { previous, current } => StateView::CheckoutClock {
                previous: previous@,
                current: current@,
            },
            HookState::CheckoutAnnounce { previous, current, timestamp } => {
                StateView::CheckoutAnnounce {
                    previous: previous@,
                    current: current@,
                    timestamp: *timestamp,
                }
            },
            HookState::CheckoutOpen { previous, current, timestamp } => StateView::CheckoutOpen {
                previous: previous@,
                current: current@,
                timestamp: *timestamp,
            },
            HookState::CheckoutBegin { previous, current, timestamp } => StateView::CheckoutBegin {
                previous: previous@,
                current: current@,
                timestamp: *timestamp,
            },
            HookState::CommitClock { hook_name } => StateView::CommitClock { hook_name: hook_name@ },
            HookState::CommitOpen { hook_name } => StateView::CommitOpen { hook_name: hook_name@ },
            HookState::CommitResolve { hook_name } => StateView::CommitResolve {
                hook_name: hook_name@,
            },
            HookState::CommitFind { hook_name, head } => StateView::CommitFind {
                hook_name: hook_name@,
                head: head@,
            },
            HookState::CommitMark { hook_name, oid, timestamp } => StateView::CommitMark {
                hook_name: hook_name@,
                oid: oid@,
                timestamp: *timestamp,
            },
            HookState::CommitBegin { oid, timestamp } => StateView::CommitBegin {
                oid: oid@,
                timestamp: *timestamp,
            },
            HookState::CommitRecord { oid } => StateView::CommitRecord { oid: oid@ },
            HookState::CommitDescribe => StateView::CommitDescribe,
            HookState::TransactionClock => StateView::TransactionClock,
            HookState::TransactionOpen { clock } => StateView::TransactionOpen { clock: *clock },
            HookState::TransactionBegin { clock } => StateView::TransactionBegin { clock: *clock },
            HookState::TransactionPacked { clock, event_tx_id } => StateView::TransactionPacked {
                clock: *clock,
                event_tx_id: *event_tx_id,
            },
            HookState::TransactionLines { clock, event_tx_id, packed } => {
                StateView::TransactionLines {
                    clock: *clock,
                    event_tx_id: *event_tx_id,
                    packed: packed@,
                }
            },
            HookState::TransactionAnnounce { clock, event_tx_id, updates } => {
                StateView::TransactionAnnounce {
                    clock: *clock,
                    event_tx_id: *event_tx_id,
                    updates: update_views(updates@),
                }
            },
            HookState::Finish => StateView::Finish,
        }
    }
}

impl View for Step {
    type V = StepView;

    open spec fn view(&self) -> StepView {
        match self {
            Step::Ask { request, state } => StepView::Ask { request: request@, state: state@ },
            Step::Stop(outcome) => StepView::Stop(*outcome),
        }
    }
}

/// The view of a request leaves nothing out and changes nothing.
pub proof fn law_request_views_say_everything(request: Request)
    ensures
        match request {
            Request::ReadClock => request@ is ReadClock,
            Request::WriteLine(line) => request@ matches RequestView::WriteLine(seen) && seen
                == line@,
            Request::OpenEventLog => request@ is OpenEventLog,
            Request::MakeTransactionId(name) => {
                request@ matches RequestView::MakeTransactionId(seen) && seen == name@
            },
            Request::ResolveHead => request@ is ResolveHead,
            Request::FindCommit(oid) => request@ matches RequestView::FindCommit(seen) && seen
                == oid@,
            Request::MarkCommitReachable(oid) => {
                request@ matches RequestView::MarkCommitReachable(seen) && seen == oid@
            },
            Request::DescribeCommit(oid) => request@ matches RequestView::DescribeCommit(seen)
                && seen == oid@,
            Request::ReadPackedRefs => request@ is ReadPackedRefs,
            Request::ReadLines => request@ is ReadLines,
            Request::AddEvents(events) => {
                &&& request@ matches RequestView::AddEvents(seen)
                &&& seen.len() == events@.len()
                &&& forall|i: int| 0 <= i < events@.len() ==> #[trigger] seen[i] == events@[i]@
            },
        },
{
}

/// The view of a reply leaves nothing out and changes nothing.
pub proof fn law_reply_views_say_everything(reply: Reply)
    ensures
        match reply {
            Reply::Done => reply@ is Done,
            Reply::Failed => reply@ is Failed,
            Reply::Clock(clock) => reply@ matches ReplyView::Clock(seen) && seen == clock,
            Reply::TransactionId(id) => reply@ matches ReplyView::TransactionId(seen) && seen == id,
            Reply::Head(head) => {
                &&& reply@ matches ReplyView::Head(seen)
                &&& seen is Some <==> head is Some
                &&& head is Some ==> seen->0 == head->0@
            },
            Reply::Commit { oid, timestamp } => {
                &&& reply@ is Commit
                &&& reply@->oid == oid@
                &&& reply@->timestamp == timestamp
            },
            Reply::Description(description) => reply@ matches ReplyView::Description(seen) && seen
                == description@,
            Reply::PackedRefs(file) => {
                &&& reply@ matches ReplyView::PackedRefs(seen)
                &&& seen is Some <==> file is Some
                &&& file is Some ==> seen->0 == file->0@
            },
            Reply::Lines(lines) => {
                &&& reply@ matches ReplyView::Lines(seen)
                &&& seen.len() == lines@.len()
                &&& forall|i: int|
                    0 <= i < lines@.len() ==> {
                        &&& (#[trigger] seen[i] is Some <==> lines@[i] is Some)
                        &&& lines@[i] is Some ==> seen[i]->0 == lines@[i]->0@
                    }
            },
        },
{
}

/// The view of a step says what it asks for and from where it goes on, or how it ends.
pub proof fn law_step_views_say_everything(step: Step)
    ensures
        match step {
            Step::Ask { request, state } => {
                &&& step@ is Ask
                &&& step@->request == request@
                &&& step@->state == state@
            },
            Step::Stop(outcome) => step@ matches StepView::Stop(seen) && seen == outcome,
        },
{
}

} // verus!
