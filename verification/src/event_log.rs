//! What the hooks record in the event log.

use crate::bytes::{same_bytes, starts_with};
use crate::oid::{MaybeZeroOid, NonZeroOid};
use vstd::prelude::*;
use vstd::utf8::encode_utf8;

verus! {

/// A moment, by the time since the Unix epoch.
#[derive(Clone, Copy, Debug, PartialEq, Eq)]
pub struct Timestamp {
    pub secs: i64,
    pub nanos: u32,
}

/// The ID under which the event log groups the events of one transaction.
#[derive(Clone, Copy, Debug, PartialEq, Eq)]
pub struct EventTransactionId {
    pub id: i64,
}

/// An entry of the event log.
#[derive(Debug, PartialEq, Eq)]
pub enum Event {
    /// A reference moved, appeared or disappeared.
    RefUpdateEvent {
        timestamp: Timestamp,
        event_tx_id: EventTransactionId,
        ref_name: Vec<u8>,
        old_oid: MaybeZeroOid,
        new_oid: MaybeZeroOid,
        message: Option<Vec<u8>>,
    },
    /// A commit was made.
    CommitEvent {
        /// When the commit says that it was made.
        timestamp: Timestamp,
        event_tx_id: EventTransactionId,
        commit_oid: NonZeroOid,
    },
}

/// What an event says, with byte strings and object IDs by their contents.
#[verifier::ext_equal]
pub enum EventView {
    RefUpdate {
        timestamp: Timestamp,
        event_tx_id: EventTransactionId,
        ref_name: Seq<u8>,
        old_oid: Seq<u8>,
        new_oid: Seq<u8>,
        message: Option<Seq<u8>>,
    },
    Commit { timestamp: Timestamp, event_tx_id: EventTransactionId, commit_oid: Seq<u8> },
}

impl View for Event {
    type V = EventView;

    open spec fn view(&self) -> EventView {
        match self {
            Event::RefUpdateEvent {
                timestamp,
                event_tx_id,
                ref_name,
                old_oid,
                new_oid,
                message,
            } => EventView::RefUpdate {
                timestamp: *timestamp,
                event_tx_id: *event_tx_id,
                ref_name: ref_name@,
                old_oid: old_oid@,
                new_oid: new_oid@,
                message: match message {
                    Some(text) => Some(text@),
                    None => None,
                },
            },
            Event::CommitEvent { timestamp, event_tx_id, commit_oid } => EventView::Commit {
                timestamp: *timestamp,
                event_tx_id: *event_tx_id,
                commit_oid: commit_oid@,
            },
        }
    }
}

/// What each of `events` says.
pub open spec fn event_views(events: Seq<Event>) -> Seq<EventView> {
    Seq::new(events.len(), |i: int| events[i]@)
}

/// Whether updates of a reference are of no interest: `ORIG_HEAD`, which Git moves for its own
/// bookkeeping, and the references that only keep commits from being collected as garbage.
pub open spec fn is_ignored_ref(ref_name: Seq<u8>) -> bool {
    ||| ref_name == encode_utf8("ORIG_HEAD"@)
    ||| encode_utf8("refs/branchless/"@).is_prefix_of(ref_name)
}

/// Whether updates of the reference `ref_name` are to be left out of the event log.
pub fn should_ignore_ref_updates(ref_name: &[u8]) -> (res: bool)
    ensures
        res == is_ignored_ref(ref_name@),
{
    same_bytes(ref_name, "ORIG_HEAD".as_bytes()) || starts_with(
        ref_name,
        "refs/branchless/".as_bytes(),
    )
}

/// Just `ORIG_HEAD` and the names that go on from `refs/branchless/` are ignored.
pub proof fn law_ignored_refs_are_known_by_name(ref_name: Seq<u8>, rest: Seq<u8>)
    ensures
        is_ignored_ref(encode_utf8("ORIG_HEAD"@)),
        is_ignored_ref(encode_utf8("refs/branchless/"@) + rest),
        is_ignored_ref(ref_name) ==> {
            ||| ref_name == encode_utf8("ORIG_HEAD"@)
            ||| exists|tail: Seq<u8>| ref_name == #[trigger] (encode_utf8("refs/branchless/"@) + tail)
        },
{
    let prefix = encode_utf8("refs/branchless/"@);
    assert(prefix.is_prefix_of(prefix + rest));
    if prefix.is_prefix_of(ref_name) {
        assert(ref_name =~= prefix + ref_name.skip(prefix.len() as int));
    }
}

/// The view of an event leaves nothing out and changes nothing.
pub proof fn law_event_views_say_everything(event: Event)
    ensures
        match event {
            Event::RefUpdateEvent {
                timestamp,
                event_tx_id,
                ref_name,
                old_oid,
                new_oid,
                message,
            } => {
                &&& event@ is RefUpdate
                &&& event@->RefUpdate_timestamp == timestamp
                &&& event@->RefUpdate_event_tx_id == event_tx_id
                &&& event@->ref_name == ref_name@
                &&& event@->old_oid == old_oid@
                &&& event@->new_oid == new_oid@
                &&& event@->message is Some <==> message is Some
                &&& message is Some ==> event@->message->0 == message->0@
            },
            Event::CommitEvent { timestamp, event_tx_id, commit_oid } => {
                &&& event@ is Commit
                &&& event@->Commit_timestamp == timestamp
                &&& event@->Commit_event_tx_id == event_tx_id
                &&& event@->commit_oid == commit_oid@
            },
        },
{
}

/// The views of a list of events are those of each of them, in their order.
pub proof fn law_event_views_are_those_of_each(events: Seq<Event>, last: Event)
    ensures
        event_views(Seq::empty()) == Seq::<EventView>::empty(),
        event_views(events.push(last)) == event_views(events).push(last@),
{
    assert(event_views(events.push(last)) =~= event_views(events).push(last@));
}

} // verus!
