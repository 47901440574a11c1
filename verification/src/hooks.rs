//! The hooks: what each asks of its host, in which order, and what it records.

use crate::bytes::pieces;
use crate::description::{
    commit_message, describe_commit, describe_updates, update_message, updated_refs,
};
use crate::event_log::{event_views, Event, EventTransactionId, EventView, Timestamp};
use crate::oid::{parsed_oid, MaybeZeroOid, ParseOidError};
use crate::outside::colors_enabled;
use crate::packed_refs::{packed_file, read_packed_refs_file};
use crate::protocol::{
    AbortReason, HookState, Outcome, Reply, ReplyView, Request, RequestView, StateView, Step,
    StepView,
};
use crate::reference_transaction::{
    collect_updates, kept_updates, law_only_other_encodings_are_refused, line_views, may_refuse,
    update_views, ParsedReferenceTransactionLine, RefUpdate,
};
use vstd::prelude::*;
use vstd::utf8::{encode_utf8, valid_utf8};

verus! {

/// The event that records where `HEAD` moved from and to.
pub open spec fn checkout_event(
    previous: Seq<u8>,
    current: Seq<u8>,
    timestamp: Timestamp,
    event_tx_id: EventTransactionId,
) -> EventView {
    EventView::RefUpdate {
        timestamp,
        event_tx_id,
        ref_name: encode_utf8("HEAD"@),
        old_oid: previous,
        new_oid: current,
        message: None,
    }
}

/// The events that record `updates`, one for each and in their order.
pub open spec fn update_events(
    updates: Seq<RefUpdate>,
    timestamp: Timestamp,
    event_tx_id: EventTransactionId,
) -> Seq<EventView> {
    Seq::new(
        updates.len(),
        |i: int|
            EventView::RefUpdate {
                timestamp,
                event_tx_id,
                ref_name: updates[i].ref_name,
                old_oid: updates[i].old_oid,
                new_oid: updates[i].new_oid,
                message: None,
            },
    )
}

/// What the library cannot know beforehand: which lines the platform refuses, and whether the
/// output is coloured.
pub struct Circumstances {
    pub refused: Seq<bool>,
    pub colors: bool,
}

/// Whether such circumstances can be met with on a reply.
pub open spec fn possible(circumstances: Circumstances, reply: ReplyView) -> bool {
    match reply {
        ReplyView::Lines(lines) => may_refuse(lines, circumstances.refused),
        _ => true,
    }
}

/// How a hook ends on a reply that does not let it go on.
pub open spec fn give_up(reply: ReplyView) -> StepView {
    StepView::Stop(
        Outcome::Aborted(
            if reply is Failed {
                AbortReason::RequestFailed
            } else {
                AbortReason::UnexpectedReply
            },
        ),
    )
}

/// What `post-checkout` does once it has a transaction: it records the move of `HEAD`, unless one
/// of the object IDs that it was called with is none.
pub open spec fn record_checkout(
    previous: Seq<char>,
    current: Seq<char>,
    timestamp: Timestamp,
    event_tx_id: EventTransactionId,
) -> StepView {
    match (parsed_oid(encode_utf8(previous)), parsed_oid(encode_utf8(current))) {
        (Err(err), _) => StepView::Stop(Outcome::Aborted(AbortReason::InvalidPreviousOid(err))),
        (_, Err(err)) => StepView::Stop(Outcome::Aborted(AbortReason::InvalidCurrentOid(err))),
        (Ok(old_oid), Ok(new_oid)) => StepView::Ask {
            request: RequestView::AddEvents(
                seq![checkout_event(old_oid, new_oid, timestamp, event_tx_id)],
            ),
            state: StateView::Finish,
        },
    }
}

/// What `reference-transaction` does once it has read its lines: it says which references were
/// updated, or stops if none of interest were.
pub open spec fn announce_updates(
    updates: Seq<RefUpdate>,
    clock: Option<Timestamp>,
    event_tx_id: EventTransactionId,
    colors: bool,
) -> StepView {
    if updates.len() == 0 {
        StepView::Stop(Outcome::Completed)
    } else {
        StepView::Ask {
            request: RequestView::WriteLine(update_message(updated_refs(updates), colors)),
            state: StateView::TransactionAnnounce { clock, event_tx_id, updates },
        }
    }
}

/// What a hook does in `state` when it gets `reply`.
pub open spec fn next_step(
    circumstances: Circumstances,
    state: StateView,
    reply: ReplyView,
) -> StepView {
    match (state, reply) {
        (StateView::CheckoutClock { previous, current }, ReplyView::Clock(clock)) => match clock {
            None => StepView::Stop(Outcome::Aborted(AbortReason::ClockBeforeEpoch)),
            Some(timestamp) => StepView::Ask {
                request: RequestView::WriteLine("branchless: processing checkout"@),
                state: StateView::CheckoutAnnounce { previous, current, timestamp },
            },
        },
        (StateView::CheckoutAnnounce { previous, current, timestamp }, ReplyView::Done) => {
            StepView::Ask {
                request: RequestView::OpenEventLog,
                state: StateView::CheckoutOpen { previous, current, timestamp },
            }
        },
        (StateView::CheckoutOpen { previous, current, timestamp }, ReplyView::Done) => {
            StepView::Ask {
                request: RequestView::MakeTransactionId("hook-post-checkout"@),
                state: StateView::CheckoutBegin { previous, current, timestamp },
            }
        },
        (
            StateView::CheckoutBegin { previous, current, timestamp },
            ReplyView::TransactionId(event_tx_id),
        ) => record_checkout(previous, current, timestamp, event_tx_id),
        (StateView::CommitClock { hook_name }, ReplyView::Clock(_)) => StepView::Ask {
            request: RequestView::OpenEventLog,
            state: StateView::CommitOpen { hook_name },
        },
        (StateView::CommitOpen { hook_name }, ReplyView::Done) => StepView::Ask {
            request: RequestView::ResolveHead,
            state: StateView::CommitResolve { hook_name },
        },
        (StateView::CommitResolve { hook_name }, ReplyView::Head(head)) => match head {
            None => StepView::Stop(Outcome::Completed),
            Some(head) => StepView::Ask {
                request: RequestView::FindCommit(head),
                state: StateView::CommitFind { hook_name, head },
            },
        },
        (StateView::CommitFind { hook_name, head }, ReplyView::Commit { oid, timestamp }) => {
            StepView::Ask {
                request: RequestView::MarkCommitReachable(head),
                state: StateView::CommitMark { hook_name, oid, timestamp },
            }
        },
        (StateView::CommitMark { hook_name, oid, timestamp }, ReplyView::Done) => StepView::Ask {
            request: RequestView::MakeTransactionId(hook_name),
            state: StateView::CommitBegin { oid, timestamp },
        },
        (StateView::CommitBegin { oid, timestamp }, ReplyView::TransactionId(event_tx_id)) => {
            StepView::Ask {
                request: RequestView::AddEvents(
                    seq![EventView::Commit { timestamp, event_tx_id, commit_oid: oid }],
                ),
                state: StateView::CommitRecord { oid },
            }
        },
        (StateView::CommitRecord { oid }, ReplyView::Done) => StepView::Ask {
            request: RequestView::DescribeCommit(oid),
            state: StateView::CommitDescribe,
        },
        (StateView::CommitDescribe, ReplyView::Description(description)) => StepView::Ask {
            request: RequestView::WriteLine(commit_message(description)),
            state: StateView::Finish,
        },
        (StateView::TransactionClock, ReplyView::Clock(clock)) => StepView::Ask {
            request: RequestView::OpenEventLog,
            state: StateView::TransactionOpen { clock },
        },
        (StateView::TransactionOpen { clock }, ReplyView::Done) => StepView::Ask {
            request: RequestView::MakeTransactionId("reference-transaction"@),
            state: StateView::TransactionBegin { clock },
        },
        (StateView::TransactionBegin { clock }, ReplyView::TransactionId(event_tx_id)) => {
            StepView::Ask {
                request: RequestView::ReadPackedRefs,
                state: StateView::TransactionPacked { clock, event_tx_id },
            }
        },
        (StateView::TransactionPacked { clock, event_tx_id }, ReplyView::PackedRefs(file)) => {
            StepView::Ask {
                request: RequestView::ReadLines,
                state: StateView::TransactionLines {
                    clock,
                    event_tx_id,
                    packed: match file {
                        Some(text) => packed_file(text),
                        None => Map::empty(),
                    },
                },
            }
        },
        (StateView::TransactionLines { clock, event_tx_id, packed }, ReplyView::Lines(lines)) => {
            announce_updates(
                kept_updates(packed, lines, circumstances.refused),
                clock,
                event_tx_id,
                circumstances.colors,
            )
        },
        (StateView::TransactionAnnounce { clock, event_tx_id, updates }, ReplyView::Done) => {
            match clock {
                None => StepView::Stop(Outcome::Aborted(AbortReason::ClockBeforeEpoch)),
                Some(timestamp) => StepView::Ask {
                    request: RequestView::AddEvents(update_events(updates, timestamp, event_tx_id)),
                    state: StateView::Finish,
                },
            }
        },
        (StateView::Finish, ReplyView::Done) => StepView::Stop(Outcome::Completed),
        _ => give_up(reply),
    }
}

/// Whether a hook that stands in `state` may go on with `step` when it gets `reply`.
///
/// It goes on as [`next_step`] says, in circumstances that can be met with on the reply; and in
/// all circumstances alike, unless it is the lines of a reference transaction that it gets.
pub open spec fn may_follow(state: StateView, reply: ReplyView, step: StepView) -> bool {
    &&& exists|circumstances: Circumstances|
        possible(circumstances, reply) && step == #[trigger] next_step(circumstances, state, reply)
    &&& !(state is TransactionLines && reply is Lines) ==> forall|circumstances: Circumstances|
        step == #[trigger] next_step(circumstances, state, reply)
}

/// How `post-checkout` begins: not at all, unless it is a branch that was checked out.
pub open spec fn checkout_start(
    previous: Seq<char>,
    current: Seq<char>,
    is_branch_checkout: isize,
) -> StepView {
    if is_branch_checkout == 0 {
        StepView::Stop(Outcome::Completed)
    } else {
        StepView::Ask {
            request: RequestView::ReadClock,
            state: StateView::CheckoutClock { previous, current },
        }
    }
}

/// How the hooks for new commits begin.
pub open spec fn commit_start(hook_name: Seq<char>) -> StepView {
    StepView::Ask {
        request: RequestView::ReadClock,
        state: StateView::CommitClock { hook_name },
    }
}

/// How `reference-transaction` begins: not at all, unless the transaction is committed.
pub open spec fn transaction_start(transaction_state: Seq<char>) -> StepView {
    if transaction_state == "committed"@ {
        StepView::Ask { request: RequestView::ReadClock, state: StateView::TransactionClock }
    } else {
        StepView::Stop(Outcome::Completed)
    }
}

/// Handles Git's `post-checkout` hook.
///
/// See the man-page for `githooks(5)`.
pub fn hook_post_checkout(
    previous_head_oid: &str,
    current_head_oid: &str,
    is_branch_checkout: isize,
) -> (res: Step)
    ensures
        res@ == checkout_start(previous_head_oid@, current_head_oid@, is_branch_checkout),
{
    if is_branch_checkout == 0 {
        return Step::Stop(Outcome::Completed);
    }
    Step::Ask {
        request: Request::ReadClock,
        state: HookState::CheckoutClock {
            previous: String::from_str(previous_head_oid),
            current: String::from_str(current_head_oid),
        },
    }
}

/// Handles the hooks for new commits, on behalf of the hook of the given name.
pub fn hook_post_commit_common(hook_name: &str) -> (res: Step)
    ensures
        res@ == commit_start(hook_name@),
{
    Step::Ask {
        request: Request::ReadClock,
        state: HookState::CommitClock { hook_name: String::from_str(hook_name) },
    }
}

/// Handles Git's `post-commit` hook.
///
/// See the man-page for `githooks(5)`.
pub fn hook_post_commit() -> (res: Step)
    ensures
        res@ == commit_start("post-commit"@),
{
    hook_post_commit_common("post-commit")
}

/// Handles Git's `post-merge` hook. Git does not invoke the `post-commit` hook after a merge
/// commit, so that case has a hook of its own.
///
/// See the man-page for `githooks(5)`.
pub fn hook_post_merge(_is_squash_merge: isize) -> (res: Step)
    ensures
        res@ == commit_start("post-merge"@),
{
    hook_post_commit_common("post-merge")
}

/// Handles Git's `reference-transaction` hook.
///
/// See the man-page for `githooks(5)`.
pub fn hook_reference_transaction(transaction_state: &str) -> (res: Step)
    ensures
        res@ == transaction_start(transaction_state@),
{
    if String::from_str(transaction_state) != String::from_str("committed") {
        return Step::Stop(Outcome::Completed);
    }
    Step::Ask { request: Request::ReadClock, state: HookState::TransactionClock }
}

/// Goes on with `post-checkout` once it has a transaction.
pub fn begin_record_checkout(
    previous: &str,
    current: &str,
    timestamp: Timestamp,
    event_tx_id: EventTransactionId,
) -> (res: Step)
    ensures
        res@ == record_checkout(previous@, current@, timestamp, event_tx_id),
{
    let old_oid = match MaybeZeroOid::from_str(previous) {
        Ok(oid) => oid,
        Err(err) => {
            return Step::Stop(Outcome::Aborted(AbortReason::InvalidPreviousOid(err)));
        },
    };
    let new_oid = match MaybeZeroOid::from_str(current) {
        Ok(oid) => oid,
        Err(err) => {
            return Step::Stop(Outcome::Aborted(AbortReason::InvalidCurrentOid(err)));
        },
    };
    let event = Event::RefUpdateEvent {
        timestamp,
        event_tx_id,
        ref_name: vstd::slice::slice_to_vec("HEAD".as_bytes()),
        old_oid,
        new_oid,
        message: None,
    };
    let mut events: Vec<Event> = Vec::new();
    events.push(event);
    assert(event_views(events@) =~= seq![event@]);
    Step::Ask { request: Request::AddEvents(events), state: HookState::Finish }
}

/// Makes an event of each update.
pub fn make_update_events(
    updates: Vec<ParsedReferenceTransactionLine>,
    timestamp: Timestamp,
    event_tx_id: EventTransactionId,
) -> (res: Vec<Event>)
    ensures
        event_views(res@) == update_events(update_views(updates@), timestamp, event_tx_id),
{
    let mut events: Vec<Event> = Vec::new();
    let mut i: usize = 0;
    let ghost all = update_events(update_views(updates@), timestamp, event_tx_id);
    while i < updates.len()
        invariant
            i <= updates@.len(),
            all == update_events(update_views(updates@), timestamp, event_tx_id),
            event_views(events@) =~= all.take(i as int),
        decreases updates@.len() - i,
    {
        let update = &updates[i];
        let ref_name = update.ref_name.clone();
        assert(ref_name@ =~= update.ref_name@);
        let event = Event::RefUpdateEvent {
            timestamp,
            event_tx_id,
            ref_name,
            old_oid: update.old_oid,
            new_oid: update.new_oid,
            message: None,
        };
        assert(event@ == all[i as int]);
        assert(event_views(events@.push(event)) =~= event_views(events@).push(event@));
        assert(all.take(i + 1) =~= all.take(i as int).push(all[i as int]));
        events.push(event);
        i = i + 1;
    }
    assert(all.take(i as int) =~= all);
    events
}

/// Goes on with `reference-transaction` once its updates are collected, in colour if `colors` is
/// set.
pub fn begin_announce_updates(
    updates: Vec<ParsedReferenceTransactionLine>,
    clock: Option<Timestamp>,
    event_tx_id: EventTransactionId,
    colors: bool,
) -> (res: Step)
    ensures
        res@ == announce_updates(update_views(updates@), clock, event_tx_id, colors),
{
    if updates.len() == 0 {
        return Step::Stop(Outcome::Completed);
    }
    let message = describe_updates(&updates, colors);
    Step::Ask {
        request: Request::WriteLine(message),
        state: HookState::TransactionAnnounce { clock, event_tx_id, updates },
    }
}

/// Goes on with a hook where neither the platform nor the terminal has a say.
fn resume_decided(state: HookState, reply: Reply) -> (res: Step)
    requires
        !(state is TransactionLines && reply is Lines),
    ensures
        forall|circumstances: Circumstances|
            res@ == #[trigger] next_step(circumstances, state@, reply@),
{
    match (state, reply) {
        (HookState::CheckoutClock { previous, current }, Reply::Clock(clock)) => match clock {
            None => Step::Stop(Outcome::Aborted(AbortReason::ClockBeforeEpoch)),
            Some(timestamp) => Step::Ask {
                request: Request::WriteLine(String::from_str("branchless: processing checkout")),
                state: HookState::CheckoutAnnounce { previous, current, timestamp },
            },
        },
        (HookState::CheckoutAnnounce { previous, current, timestamp }, Reply::Done) => Step::Ask {
            request: Request::OpenEventLog,
            state: HookState::CheckoutOpen { previous, current, timestamp },
        },
        (HookState::CheckoutOpen { previous, current, timestamp }, Reply::Done) => Step::Ask {
            request: Request::MakeTransactionId(String::from_str("hook-post-checkout")),
            state: HookState::CheckoutBegin { previous, current, timestamp },
        },
        (
            HookState::CheckoutBegin { previous, current, timestamp },
            Reply::TransactionId(event_tx_id),
        ) => begin_record_checkout(previous.as_str(), current.as_str(), timestamp, event_tx_id),
        (HookState::CommitClock { hook_name }, Reply::Clock(_)) => Step::Ask {
            request: Request::OpenEventLog,
            state: HookState::CommitOpen { hook_name },
        },
        (HookState::CommitOpen { hook_name }, Reply::Done) => Step::Ask {
            request: Request::ResolveHead,
            state: HookState::CommitResolve { hook_name },
        },
        (HookState::CommitResolve { hook_name }, Reply::Head(head)) => match head {
            // A strange situation, but technically possible.
            None => Step::Stop(Outcome::Completed),
            Some(head) => Step::Ask {
                request: Request::FindCommit(head),
                state: HookState::CommitFind { hook_name, head },
            },
        },
        (HookState::CommitFind { hook_name, head }, Reply::Commit { oid, timestamp }) => {
            Step::Ask {
                request: Request::MarkCommitReachable(head),
                state: HookState::CommitMark { hook_name, oid, timestamp },
            }
        },
        (HookState::CommitMark { hook_name, oid, timestamp }, Reply::Done) => Step::Ask {
            request: Request::MakeTransactionId(hook_name),
            state: HookState::CommitBegin { oid, timestamp },
        },
        (HookState::CommitBegin { oid, timestamp }, Reply::TransactionId(event_tx_id)) => {
            let event = Event::CommitEvent { timestamp, event_tx_id, commit_oid: oid };
            let mut events: Vec<Event> = Vec::new();
            events.push(event);
            assert(event_views(events@) =~= seq![event@]);
            Step::Ask { request: Request::AddEvents(events), state: HookState::CommitRecord { oid } }
        },
        (HookState::CommitRecord { oid }, Reply::Done) => Step::Ask {
            request: Request::DescribeCommit(oid),
            state: HookState::CommitDescribe,
        },
        (HookState::CommitDescribe, Reply::Description(description)) => Step::Ask {
            request: Request::WriteLine(describe_commit(description.as_str())),
            state: HookState::Finish,
        },
        (HookState::TransactionClock, Reply::Clock(clock)) => Step::Ask {
            request: Request::OpenEventLog,
            state: HookState::TransactionOpen { clock },
        },
        (HookState::TransactionOpen { clock }, Reply::Done) => Step::Ask {
            request: Request::MakeTransactionId(String::from_str("reference-transaction")),
            state: HookState::TransactionBegin { clock },
        },
        (HookState::TransactionBegin { clock }, Reply::TransactionId(event_tx_id)) => Step::Ask {
            request: Request::ReadPackedRefs,
            state: HookState::TransactionPacked { clock, event_tx_id },
        },
        (HookState::TransactionPacked { clock, event_tx_id }, Reply::PackedRefs(file)) => {
            let packed = match &file {
                Some(text) => read_packed_refs_file(Some(text.as_slice())),
                None => read_packed_refs_file(None),
            };
            Step::Ask {
                request: Request::ReadLines,
                state: HookState::TransactionLines { clock, event_tx_id, packed },
            }
        },
        (HookState::TransactionAnnounce { clock, event_tx_id, updates }, Reply::Done) => {
            match clock {
                None => Step::Stop(Outcome::Aborted(AbortReason::ClockBeforeEpoch)),
                Some(timestamp) => Step::Ask {
                    request: Request::AddEvents(
                        make_update_events(updates, timestamp, event_tx_id),
                    ),
                    state: HookState::Finish,
                },
            }
        },
        (HookState::Finish, Reply::Done) => Step::Stop(Outcome::Completed),
        (_, Reply::Failed) => Step::Stop(Outcome::Aborted(AbortReason::RequestFailed)),
        (_, _) => Step::Stop(Outcome::Aborted(AbortReason::UnexpectedReply)),
    }
}

/// Goes on with a hook that stands in `state`, now that its host has replied.
///
/// What happens is [`may_follow`]. The circumstances matter only where the lines of a reference
/// transaction are read; then the platform and the terminal decide them.
pub fn resume(state: HookState, reply: Reply) -> (res: Step)
    ensures
        may_follow(state@, reply@, res@),
{
    match (state, reply) {
        (HookState::TransactionLines { clock, event_tx_id, packed }, Reply::Lines(lines)) => {
            let updates = collect_updates(&packed, &lines);
            let colors = colors_enabled();
            let ghost refused = choose|refused: Seq<bool>|
                may_refuse(line_views(lines@), refused) && update_views(updates@)
                    == #[trigger] kept_updates(packed@, line_views(lines@), refused);
            let ghost circumstances = Circumstances { refused, colors };
            let res = begin_announce_updates(updates, clock, event_tx_id, colors);
            assert(possible(circumstances, reply@));
            assert(res@ == next_step(circumstances, state@, reply@));
            res
        },
        (state, reply) => {
            let ghost refused: Seq<bool> = match reply@ {
                ReplyView::Lines(lines) => Seq::new(lines.len(), |i: int| false),
                _ => seq![],
            };
            let ghost circumstances = Circumstances { refused, colors: false };
            let ghost (before, replied) = (state@, reply@);
            let res = resume_decided(state, reply);
            assert(possible(circumstances, replied));
            assert(res@ == next_step(circumstances, before, replied));
            res
        },
    }
}

/// The event that `post-checkout` records is about `HEAD`: it was at the previous object ID and is at
/// the current one, at the time and in the transaction that are given, and there is no message.
pub proof fn law_checkout_events_say_where_head_moved(
    previous: Seq<u8>,
    current: Seq<u8>,
    timestamp: Timestamp,
    event_tx_id: EventTransactionId,
)
    ensures
        ({
            let event = checkout_event(previous, current, timestamp, event_tx_id);
            &&& event is RefUpdate
            &&& event->ref_name == encode_utf8("HEAD"@)
            &&& event->old_oid == previous
            &&& event->new_oid == current
            &&& event->message is None
            &&& event->RefUpdate_timestamp == timestamp
            &&& event->RefUpdate_event_tx_id == event_tx_id
        }),
{
}

/// Each update makes one event, in its place: of the same reference and object IDs, at the time and
/// in the transaction that are given, and without a message.
pub proof fn law_each_update_makes_one_event(
    updates: Seq<RefUpdate>,
    timestamp: Timestamp,
    event_tx_id: EventTransactionId,
    i: int,
)
    ensures
        update_events(updates, timestamp, event_tx_id).len() == updates.len(),
        0 <= i < updates.len() ==> {
            let event = update_events(updates, timestamp, event_tx_id)[i];
            &&& event is RefUpdate
            &&& event->ref_name == updates[i].ref_name
            &&& event->old_oid == updates[i].old_oid
            &&& event->new_oid == updates[i].new_oid
            &&& event->message is None
            &&& event->RefUpdate_timestamp == timestamp
            &&& event->RefUpdate_event_tx_id == event_tx_id
        },
{
}

/// With a transaction at hand, `post-checkout` adds one event, that `HEAD` moved from the object ID
/// that `previous` writes to the one that `current` writes, and then is done; a text that writes none
/// is the reason to give up, the previous one before the current one.
pub proof fn law_checkouts_are_recorded(
    circumstances: Circumstances,
    previous: Seq<char>,
    current: Seq<char>,
    timestamp: Timestamp,
    event_tx_id: EventTransactionId,
    old_oid: Seq<u8>,
    new_oid: Seq<u8>,
    err: ParseOidError,
)
    ensures
        ({
            let step = record_checkout(previous, current, timestamp, event_tx_id);
            let old = parsed_oid(encode_utf8(previous));
            let new = parsed_oid(encode_utf8(current));
            &&& old == Ok::<Seq<u8>, ParseOidError>(old_oid) && new == Ok::<Seq<u8>, ParseOidError>(
                new_oid,
            ) ==> {
                &&& step matches StepView::Ask { request: RequestView::AddEvents(events), state }
                &&& events == seq![
                    EventView::RefUpdate {
                        timestamp,
                        event_tx_id,
                        ref_name: encode_utf8("HEAD"@),
                        old_oid,
                        new_oid,
                        message: None,
                    },
                ]
                &&& next_step(circumstances, state, ReplyView::Done) == StepView::Stop(
                    Outcome::Completed,
                )
            }
            &&& old == Err::<Seq<u8>, ParseOidError>(err) ==> step == StepView::Stop(
                Outcome::Aborted(AbortReason::InvalidPreviousOid(err)),
            )
            &&& old is Ok && new == Err::<Seq<u8>, ParseOidError>(err) ==> step == StepView::Stop(
                Outcome::Aborted(AbortReason::InvalidCurrentOid(err)),
            )
        }),
{
}

/// With its updates at hand, `reference-transaction` names the updated references, and then adds one
/// event for each update and is done. Without an update it is done at once, and with a clock that is
/// wrong it gives up once it has named them.
pub proof fn law_updates_are_announced_and_recorded(
    circumstances: Circumstances,
    updates: Seq<RefUpdate>,
    clock: Option<Timestamp>,
    event_tx_id: EventTransactionId,
    colors: bool,
)
    ensures
        ({
            let step = announce_updates(updates, clock, event_tx_id, colors);
            let names = Seq::new(updates.len(), |i: int| updates[i].ref_name);
            &&& updates.len() == 0 ==> step == StepView::Stop(Outcome::Completed)
            &&& updates.len() > 0 ==> {
                &&& step matches StepView::Ask { request: RequestView::WriteLine(line), state }
                &&& line == update_message(names, colors)
                &&& match clock {
                    None => next_step(circumstances, state, ReplyView::Done) == StepView::Stop(
                        Outcome::Aborted(AbortReason::ClockBeforeEpoch),
                    ),
                    Some(timestamp) => {
                        &&& next_step(circumstances, state, ReplyView::Done) matches StepView::Ask {
                            request: RequestView::AddEvents(events),
                            state: last,
                        }
                        &&& events == Seq::new(
                            updates.len(),
                            |i: int|
                                EventView::RefUpdate {
                                    timestamp,
                                    event_tx_id,
                                    ref_name: updates[i].ref_name,
                                    old_oid: updates[i].old_oid,
                                    new_oid: updates[i].new_oid,
                                    message: None,
                                },
                        )
                        &&& next_step(circumstances, last, ReplyView::Done) == StepView::Stop(
                            Outcome::Completed,
                        )
                    },
                }
            }
        }),
{
    assert(updated_refs(updates) =~= Seq::new(updates.len(), |i: int| updates[i].ref_name));
}

/// In circumstances that can be met with, no line is refused but one that could be read and has a
/// field that is not UTF-8.
pub proof fn law_utf8_is_never_refused(
    circumstances: Circumstances,
    lines: Seq<Option<Seq<u8>>>,
    i: int,
)
    requires
        possible(circumstances, ReplyView::Lines(lines)),
    ensures
        circumstances.refused.len() == lines.len(),
        0 <= i < lines.len() && circumstances.refused[i] ==> lines[i] is Some && exists|k: int|
            0 <= k < pieces(lines[i]->0, 0x20).len() && !valid_utf8(
                #[trigger] pieces(lines[i]->0, 0x20)[k],
            ),
{
    law_only_other_encodings_are_refused(lines, circumstances.refused, i);
}

} // verus!
