//! Laws on whole runs of the hooks.

use crate::bytes::{law_pieces_of_two_texts, pieces};
use crate::description::{commit_message, update_message, updated_refs};
use crate::event_log::{is_ignored_ref, EventTransactionId, EventView, Timestamp};
use crate::hooks::{
    announce_updates, checkout_event, checkout_start, commit_start, law_checkouts_are_recorded,
    law_updates_are_announced_and_recorded, may_follow, next_step, possible, transaction_start,
    update_events, Circumstances,
};
use crate::oid::{parsed_oid, ParseOidError};
use crate::packed_refs::packed_file;
use crate::protocol::{AbortReason, Outcome, ReplyView, RequestView, StateView, StepView};
use crate::reference_transaction::{
    fixed_update, is_idle, kept_updates, law_every_reported_update_is_kept,
    law_fixing_changes_nothing_else, law_idle_lines_change_no_update,
    law_ignored_refs_are_not_kept, law_updates_keep_the_order_of_the_lines, line_update, unmarked,
    RefUpdate, TransactionLineError,
};
use vstd::prelude::*;
use vstd::utf8::{encode_utf8, valid_utf8};

verus! {

/// What a hook that begins with `start` does after the first `n` of `replies`. A hook that has
/// stopped stays so.
pub open spec fn step_after(
    circumstances: Circumstances,
    start: StepView,
    replies: Seq<ReplyView>,
    n: nat,
) -> StepView
    decreases n,
{
    if n == 0 {
        start
    } else {
        match step_after(circumstances, start, replies, (n - 1) as nat) {
            StepView::Ask { request: _, state } => next_step(circumstances, state, replies[n - 1]),
            StepView::Stop(outcome) => StepView::Stop(outcome),
        }
    }
}

/// Whether `step` asks for `request`.
pub open spec fn asks(step: StepView, request: RequestView) -> bool {
    step matches StepView::Ask { request: asked, state: _ } && asked == request
}

/// Whether a hook begins with `step`.
pub open spec fn is_start(step: StepView) -> bool {
    ||| exists|previous: Seq<char>, current: Seq<char>, is_branch_checkout: isize|
        step == #[trigger] checkout_start(previous, current, is_branch_checkout)
    ||| exists|hook_name: Seq<char>| step == #[trigger] commit_start(hook_name)
    ||| exists|transaction_state: Seq<char>| step == #[trigger] transaction_start(transaction_state)
}

/// Whether `step` adds events to the event log.
pub open spec fn adds_events(step: StepView) -> bool {
    step matches StepView::Ask { request: RequestView::AddEvents(_), state: _ }
}

/// The object ID that `HEAD` was found to have, if the reply says so.
pub open spec fn head_of(reply: ReplyView) -> Option<Seq<u8>> {
    match reply {
        ReplyView::Head(head) => head,
        _ => None,
    }
}

/// The packed references that a reply tells of.
pub open spec fn packed_of(reply: ReplyView) -> Map<Seq<u8>, Seq<u8>> {
    match reply {
        ReplyView::PackedRefs(Some(text)) => packed_file(text),
        _ => Map::empty(),
    }
}

/// The updates that `reference-transaction` keeps, by the replies to its fourth and fifth request.
pub open spec fn updates_of(circumstances: Circumstances, replies: Seq<ReplyView>) -> Seq<
    RefUpdate,
> {
    match replies[4] {
        ReplyView::Lines(lines) => kept_updates(
            packed_of(replies[3]),
            lines,
            circumstances.refused,
        ),
        _ => seq![],
    }
}

/// Whether the host does all that `reference-transaction` asks for, and the clock is right.
pub open spec fn transaction_goes_well(replies: Seq<ReplyView>) -> bool {
    &&& replies[0] matches ReplyView::Clock(Some(_))
    &&& replies[1] is Done
    &&& replies[2] is TransactionId
    &&& replies[3] is PackedRefs
    &&& replies[4] is Lines
    &&& replies[5] is Done
    &&& replies[6] is Done
}

/// The lines that a hook has had written before it got the reply of number `n`.
pub open spec fn written(
    circumstances: Circumstances,
    start: StepView,
    replies: Seq<ReplyView>,
    n: nat,
) -> Seq<Seq<char>>
    decreases n,
{
    if n == 0 {
        seq![]
    } else {
        let earlier = written(circumstances, start, replies, (n - 1) as nat);
        match step_after(circumstances, start, replies, (n - 1) as nat) {
            StepView::Ask { request: RequestView::WriteLine(line), state: _ } => earlier.push(line),
            _ => earlier,
        }
    }
}

/// The events that a hook has had added to the event log before it got the reply of number `n`.
pub open spec fn recorded(
    circumstances: Circumstances,
    start: StepView,
    replies: Seq<ReplyView>,
    n: nat,
) -> Seq<EventView>
    decreases n,
{
    if n == 0 {
        seq![]
    } else {
        let earlier = recorded(circumstances, start, replies, (n - 1) as nat);
        match step_after(circumstances, start, replies, (n - 1) as nat) {
            StepView::Ask { request: RequestView::AddEvents(events), state: _ } => earlier + events,
            _ => earlier,
        }
    }
}

/// Whether two events say the same, time and transaction aside.
pub open spec fn same_event(left: EventView, right: EventView) -> bool {
    match left {
        EventView::RefUpdate { ref_name, old_oid, new_oid, message, .. } => {
            &&& right is RefUpdate
            &&& right->ref_name == ref_name
            &&& right->old_oid == old_oid
            &&& right->new_oid == new_oid
            &&& right->message == message
        },
        EventView::Commit { commit_oid, .. } => {
            &&& right is Commit
            &&& right->commit_oid == commit_oid
        },
    }
}

/// Whether two lists of events say the same in the same order, times and transactions aside.
pub open spec fn same_events(left: Seq<EventView>, right: Seq<EventView>) -> bool {
    &&& left.len() == right.len()
    &&& forall|i: int| 0 <= i < left.len() ==> same_event(#[trigger] left[i], right[i])
}

/// The lines of an input, which newlines (0x0a) end, where all of them can be read.
pub open spec fn input_lines(text: Seq<u8>) -> Seq<Option<Seq<u8>>> {
    let lines = pieces(text, 0x0a);
    Seq::new(lines.len(), |i: int| Some(lines[i]))
}

/// Whether a hook that begins with `start` and gets `replies` one by one may go through `steps`,
/// if each step follows as [`may_follow`] says.
pub open spec fn may_go_through(
    start: StepView,
    replies: Seq<ReplyView>,
    steps: Seq<StepView>,
) -> bool {
    &&& steps.len() == replies.len() + 1
    &&& steps[0] == start
    &&& forall|k: int|
        0 <= k < replies.len() ==> match #[trigger] steps[k] {
            StepView::Ask { request: _, state } => may_follow(state, replies[k], steps[k + 1]),
            StepView::Stop(outcome) => steps[k + 1] == StepView::Stop(outcome),
        }
}

/// Whether `steps` are what a hook that begins with `start` goes through in `circumstances`, and
/// these can be met with on every reply that the hook takes.
pub open spec fn is_run(
    circumstances: Circumstances,
    start: StepView,
    replies: Seq<ReplyView>,
    steps: Seq<StepView>,
) -> bool {
    &&& forall|k: nat|
        k < steps.len() ==> steps[k as int] == #[trigger] step_after(
            circumstances,
            start,
            replies,
            k,
        )
    &&& forall|k: int|
        0 <= k < replies.len() && steps[k] is Ask && steps[k + 1] != StepView::Stop(
            Outcome::Aborted(AbortReason::UnexpectedReply),
        ) ==> possible(circumstances, #[trigger] replies[k])
}

/// A hook that has stopped does nothing more.
pub proof fn law_stopped_hooks_stay_stopped(
    circumstances: Circumstances,
    start: StepView,
    replies: Seq<ReplyView>,
    n: nat,
    m: nat,
)
    requires
        n <= m,
        step_after(circumstances, start, replies, n) is Stop,
    ensures
        step_after(circumstances, start, replies, m) == step_after(circumstances, start, replies, n),
    decreases m,
{
    if n < m {
        law_stopped_hooks_stay_stopped(circumstances, start, replies, n, (m - 1) as nat);
    }
}

/// Whatever a hook asks for, it gives up when its host fails to do it.
pub proof fn law_a_failed_request_ends_the_hook(
    circumstances: Circumstances,
    start: StepView,
    replies: Seq<ReplyView>,
    n: nat,
)
    requires
        step_after(circumstances, start, replies, n) is Ask,
        replies[n as int] is Failed,
    ensures
        step_after(circumstances, start, replies, n + 1) == StepView::Stop(
            Outcome::Aborted(AbortReason::RequestFailed),
        ),
{
}

/// `post-checkout` reads the clock, says that it is at work, opens the event log, begins a
/// transaction, and records one event: that `HEAD` moved from the one object ID to the other. It
/// never does more, and it does nothing at all unless a branch was checked out.
pub proof fn law_post_checkout_runs(
    circumstances: Circumstances,
    previous: Seq<char>,
    current: Seq<char>,
    is_branch_checkout: isize,
    replies: Seq<ReplyView>,
    n: nat,
)
    ensures
        ({
            let start = checkout_start(previous, current, is_branch_checkout);
            let step = step_after(circumstances, start, replies, n);
            &&& step is Ask ==> is_branch_checkout != 0 && n < 5
            &&& step is Ask && n == 0 ==> asks(step, RequestView::ReadClock)
            &&& step is Ask && n == 1 ==> asks(
                step,
                RequestView::WriteLine("branchless: processing checkout"@),
            )
            &&& step is Ask && n == 2 ==> asks(step, RequestView::OpenEventLog)
            &&& step is Ask && n == 3 ==> asks(
                step,
                RequestView::MakeTransactionId("hook-post-checkout"@),
            )
            &&& step is Ask && n == 4 ==> {
                &&& replies[0] matches ReplyView::Clock(Some(timestamp))
                &&& replies[3] matches ReplyView::TransactionId(event_tx_id)
                &&& parsed_oid(encode_utf8(previous)) matches Ok(old_oid)
                &&& parsed_oid(encode_utf8(current)) matches Ok(new_oid)
                &&& asks(
                    step,
                    RequestView::AddEvents(
                        seq![checkout_event(old_oid, new_oid, timestamp, event_tx_id)],
                    ),
                )
            }
        }),
{
    let start = checkout_start(previous, current, is_branch_checkout);
    let s0 = step_after(circumstances, start, replies, 0);
    let s1 = step_after(circumstances, start, replies, 1);
    let s2 = step_after(circumstances, start, replies, 2);
    let s3 = step_after(circumstances, start, replies, 3);
    let s4 = step_after(circumstances, start, replies, 4);
    let s5 = step_after(circumstances, start, replies, 5);
    assert(s0 == start);
    assert(s5 is Stop);
    if n > 5 {
        law_stopped_hooks_stay_stopped(circumstances, start, replies, 5, n);
    }
}

/// The hooks for new commits read the clock, open the event log, resolve `HEAD`, look up the
/// commit that it points to, keep that commit alive, begin a transaction in their own name, record
/// the commit, have that same commit described, and announce it. They never do more; and where `HEAD` points to
/// no commit they stop before they have looked one up.
pub proof fn law_commit_hooks_run(
    circumstances: Circumstances,
    hook_name: Seq<char>,
    replies: Seq<ReplyView>,
    n: nat,
)
    ensures
        ({
            let step = step_after(circumstances, commit_start(hook_name), replies, n);
            &&& step is Ask ==> n < 9
            &&& n == 0 ==> asks(step, RequestView::ReadClock)
            &&& step is Ask && n == 1 ==> asks(step, RequestView::OpenEventLog)
            &&& step is Ask && n == 2 ==> asks(step, RequestView::ResolveHead)
            &&& step is Ask && n >= 3 ==> head_of(replies[2]) is Some
            &&& step is Ask && n == 3 ==> asks(
                step,
                RequestView::FindCommit(head_of(replies[2])->0),
            )
            &&& step is Ask && n == 4 ==> asks(
                step,
                RequestView::MarkCommitReachable(head_of(replies[2])->0),
            )
            &&& step is Ask && n == 5 ==> asks(step, RequestView::MakeTransactionId(hook_name))
            &&& step is Ask && n == 6 ==> {
                &&& replies[3] matches ReplyView::Commit { oid, timestamp }
                &&& replies[5] matches ReplyView::TransactionId(event_tx_id)
                &&& asks(
                    step,
                    RequestView::AddEvents(
                        seq![EventView::Commit { timestamp, event_tx_id, commit_oid: oid }],
                    ),
                )
            }
            &&& step is Ask && n == 7 ==> {
                &&& replies[3] matches ReplyView::Commit { oid, timestamp: _ }
                &&& asks(step, RequestView::DescribeCommit(oid))
            }
            &&& step is Ask && n == 8 ==> {
                &&& replies[7] matches ReplyView::Description(description)
                &&& asks(step, RequestView::WriteLine(commit_message(description)))
            }
        }),
{
    let start = commit_start(hook_name);
    let s0 = step_after(circumstances, start, replies, 0);
    let s1 = step_after(circumstances, start, replies, 1);
    let s2 = step_after(circumstances, start, replies, 2);
    let s3 = step_after(circumstances, start, replies, 3);
    let s4 = step_after(circumstances, start, replies, 4);
    let s5 = step_after(circumstances, start, replies, 5);
    let s6 = step_after(circumstances, start, replies, 6);
    let s7 = step_after(circumstances, start, replies, 7);
    let s8 = step_after(circumstances, start, replies, 8);
    let s9 = step_after(circumstances, start, replies, 9);
    assert(s0 == start);
    assert(s3 is Ask ==> s3->state is CommitFind);
    assert(s6 is Ask ==> s6->state is CommitRecord);
    assert(s9 is Stop);
    if n > 9 {
        law_stopped_hooks_stay_stopped(circumstances, start, replies, 9, n);
    }
}

/// `reference-transaction` reads the clock, opens the event log, begins a transaction, reads the
/// packed references, reads its lines, says which references were updated, and records one event
/// for each update that it keeps. It never does more; it does nothing at all unless the
/// transaction is committed; and where it keeps no update it says and records nothing.
pub proof fn law_reference_transaction_runs(
    circumstances: Circumstances,
    transaction_state: Seq<char>,
    replies: Seq<ReplyView>,
    n: nat,
)
    ensures
        ({
            let start = transaction_start(transaction_state);
            let step = step_after(circumstances, start, replies, n);
            let updates = updates_of(circumstances, replies);
            &&& step is Ask ==> transaction_state == "committed"@ && n < 7
            &&& step is Ask && n == 0 ==> asks(step, RequestView::ReadClock)
            &&& step is Ask && n == 1 ==> asks(step, RequestView::OpenEventLog)
            &&& step is Ask && n == 2 ==> asks(
                step,
                RequestView::MakeTransactionId("reference-transaction"@),
            )
            &&& step is Ask && n == 3 ==> asks(step, RequestView::ReadPackedRefs)
            &&& step is Ask && n == 4 ==> asks(step, RequestView::ReadLines)
            &&& step is Ask && n >= 5 ==> updates.len() > 0
            &&& step is Ask && n == 5 ==> asks(
                step,
                RequestView::WriteLine(update_message(updated_refs(updates), circumstances.colors)),
            )
            &&& step is Ask && n == 6 ==> {
                &&& replies[0] matches ReplyView::Clock(Some(timestamp))
                &&& replies[2] matches ReplyView::TransactionId(event_tx_id)
                &&& asks(
                    step,
                    RequestView::AddEvents(update_events(updates, timestamp, event_tx_id)),
                )
            }
        }),
{
    let start = transaction_start(transaction_state);
    let s0 = step_after(circumstances, start, replies, 0);
    let s1 = step_after(circumstances, start, replies, 1);
    let s2 = step_after(circumstances, start, replies, 2);
    let s3 = step_after(circumstances, start, replies, 3);
    let s4 = step_after(circumstances, start, replies, 4);
    let s5 = step_after(circumstances, start, replies, 5);
    let s6 = step_after(circumstances, start, replies, 6);
    let s7 = step_after(circumstances, start, replies, 7);
    assert(s0 == start);
    assert(s7 is Stop);
    if n > 7 {
        law_stopped_hooks_stay_stopped(circumstances, start, replies, 7, n);
    }
}

/// `post-checkout` completes when its host does what it is asked for, the clock is right, and the
/// hook is called with two object IDs.
pub proof fn law_post_checkout_completes(
    circumstances: Circumstances,
    previous: Seq<char>,
    current: Seq<char>,
    is_branch_checkout: isize,
    replies: Seq<ReplyView>,
)
    requires
        parsed_oid(encode_utf8(previous)) is Ok,
        parsed_oid(encode_utf8(current)) is Ok,
        replies[0] matches ReplyView::Clock(Some(_)),
        replies[1] is Done,
        replies[2] is Done,
        replies[3] is TransactionId,
        replies[4] is Done,
    ensures
        step_after(
            circumstances,
            checkout_start(previous, current, is_branch_checkout),
            replies,
            5,
        ) == StepView::Stop(Outcome::Completed),
{
    let start = checkout_start(previous, current, is_branch_checkout);
    assert(step_after(circumstances, start, replies, 0) == start);
    let s1 = step_after(circumstances, start, replies, 1);
    let s2 = step_after(circumstances, start, replies, 2);
    let s3 = step_after(circumstances, start, replies, 3);
    let s4 = step_after(circumstances, start, replies, 4);
    assert(s4 is Stop || s4->state is Finish);
}

/// The hooks for new commits complete when their host does what it is asked for.
pub proof fn law_commit_hooks_complete(
    circumstances: Circumstances,
    hook_name: Seq<char>,
    replies: Seq<ReplyView>,
)
    requires
        replies[0] is Clock,
        replies[1] is Done,
        replies[2] is Head,
        replies[3] is Commit,
        replies[4] is Done,
        replies[5] is TransactionId,
        replies[6] is Done,
        replies[7] is Description,
        replies[8] is Done,
    ensures
        step_after(circumstances, commit_start(hook_name), replies, 9) == StepView::Stop(
            Outcome::Completed,
        ),
{
    let start = commit_start(hook_name);
    assert(step_after(circumstances, start, replies, 0) == start);
    let s1 = step_after(circumstances, start, replies, 1);
    let s2 = step_after(circumstances, start, replies, 2);
    let s3 = step_after(circumstances, start, replies, 3);
    let s4 = step_after(circumstances, start, replies, 4);
    let s5 = step_after(circumstances, start, replies, 5);
    let s6 = step_after(circumstances, start, replies, 6);
    let s7 = step_after(circumstances, start, replies, 7);
    let s8 = step_after(circumstances, start, replies, 8);
    assert(s3 == StepView::Stop(Outcome::Completed) || s3->state is CommitFind);
    assert(s6 == StepView::Stop(Outcome::Completed) || s6->state is CommitRecord);
    assert(s8 == StepView::Stop(Outcome::Completed) || s8->state is Finish);
}

/// `reference-transaction` completes when its host does what it is asked for and the clock is
/// right, whatever its lines are.
pub proof fn law_reference_transaction_completes(
    circumstances: Circumstances,
    transaction_state: Seq<char>,
    replies: Seq<ReplyView>,
)
    requires
        transaction_goes_well(replies),
    ensures
        step_after(circumstances, transaction_start(transaction_state), replies, 7)
            == StepView::Stop(Outcome::Completed),
{
    let start = transaction_start(transaction_state);
    assert(step_after(circumstances, start, replies, 0) == start);
    let s1 = step_after(circumstances, start, replies, 1);
    let s2 = step_after(circumstances, start, replies, 2);
    let s3 = step_after(circumstances, start, replies, 3);
    let s4 = step_after(circumstances, start, replies, 4);
    let s5 = step_after(circumstances, start, replies, 5);
    let s6 = step_after(circumstances, start, replies, 6);
    assert(s4 == StepView::Stop(Outcome::Completed) || s4->state is TransactionLines);
    assert(s6 == StepView::Stop(Outcome::Completed) || s6->state is Finish);
}

/// A run of any hook adds events at most once.
pub proof fn law_events_are_added_once(
    circumstances: Circumstances,
    start: StepView,
    replies: Seq<ReplyView>,
    n: nat,
    m: nat,
)
    requires
        is_start(start),
        adds_events(step_after(circumstances, start, replies, n)),
        adds_events(step_after(circumstances, start, replies, m)),
    ensures
        n == m,
{
    if exists|previous: Seq<char>, current: Seq<char>, is_branch_checkout: isize|
        start == #[trigger] checkout_start(previous, current, is_branch_checkout) {
        let (previous, current, is_branch_checkout) = choose|
            previous: Seq<char>,
            current: Seq<char>,
            is_branch_checkout: isize,
        |
            start == #[trigger] checkout_start(previous, current, is_branch_checkout);
        law_post_checkout_runs(circumstances, previous, current, is_branch_checkout, replies, n);
        law_post_checkout_runs(circumstances, previous, current, is_branch_checkout, replies, m);
    } else if exists|hook_name: Seq<char>| start == #[trigger] commit_start(hook_name) {
        let hook_name = choose|hook_name: Seq<char>| start == #[trigger] commit_start(hook_name);
        law_commit_hooks_run(circumstances, hook_name, replies, n);
        law_commit_hooks_run(circumstances, hook_name, replies, m);
    } else {
        let transaction_state = choose|transaction_state: Seq<char>|
            start == #[trigger] transaction_start(transaction_state);
        law_reference_transaction_runs(circumstances, transaction_state, replies, n);
        law_reference_transaction_runs(circumstances, transaction_state, replies, m);
    }
}

/// No event that `reference-transaction` records is about an ignored reference.
pub proof fn law_ignored_refs_are_never_recorded(
    circumstances: Circumstances,
    transaction_state: Seq<char>,
    replies: Seq<ReplyView>,
    n: nat,
    events: Seq<EventView>,
    i: int,
)
    requires
        asks(
            step_after(circumstances, transaction_start(transaction_state), replies, n),
            RequestView::AddEvents(events),
        ),
        0 <= i < events.len(),
    ensures
        events[i] is RefUpdate,
        !is_ignored_ref(events[i]->ref_name),
{
    law_reference_transaction_runs(circumstances, transaction_state, replies, n);
    if let ReplyView::Lines(lines) = replies[4] {
        law_ignored_refs_are_not_kept(packed_of(replies[3]), lines, circumstances.refused);
    }
}

/// How many replies a hook has got when it stands in `state`; of the last state nothing is said.
spec fn replies_before(state: StateView) -> int {
    match state {
        StateView::CheckoutClock { .. } => 0,
        StateView::CheckoutAnnounce { .. } => 1,
        StateView::CheckoutOpen { .. } => 2,
        StateView::CheckoutBegin { .. } => 3,
        StateView::CommitClock { .. } => 0,
        StateView::CommitOpen { .. } => 1,
        StateView::CommitResolve { .. } => 2,
        StateView::CommitFind { .. } => 3,
        StateView::CommitMark { .. } => 4,
        StateView::CommitBegin { .. } => 5,
        StateView::CommitRecord { .. } => 6,
        StateView::CommitDescribe => 7,
        StateView::TransactionClock => 0,
        StateView::TransactionOpen { .. } => 1,
        StateView::TransactionBegin { .. } => 2,
        StateView::TransactionPacked { .. } => 3,
        StateView::TransactionLines { .. } => 4,
        StateView::TransactionAnnounce { .. } => 5,
        StateView::Finish => 0,
    }
}

proof fn lemma_states_come_in_turn(
    start: StepView,
    replies: Seq<ReplyView>,
    steps: Seq<StepView>,
    k: int,
)
    requires
        is_start(start),
        may_go_through(start, replies, steps),
        0 <= k < steps.len(),
    ensures
        steps[k] is Ask ==> steps[k]->state is Finish || replies_before(steps[k]->state) == k,
    decreases k,
{
    if k > 0 {
        lemma_states_come_in_turn(start, replies, steps, k - 1);
        if let StepView::Ask { request: _, state } = steps[k - 1] {
            assert(may_follow(state, replies[k - 1], steps[k]));
        }
    }
}

/// A hook that is resumed with one reply after the other runs in one set of circumstances: as each
/// step follows from the one before, so all of them follow, in circumstances that can be met with
/// on every reply that the hook takes.
pub proof fn law_steps_make_a_run(start: StepView, replies: Seq<ReplyView>, steps: Seq<StepView>)
    requires
        is_start(start),
        may_go_through(start, replies, steps),
    ensures
        exists|circumstances: Circumstances| #[trigger]
            is_run(circumstances, start, replies, steps),
{
    let decided = replies.len() > 4 && steps[4] is Ask && steps[4]->state is TransactionLines
        && replies[4] is Lines;
    let circumstances = if decided {
        choose|circumstances: Circumstances|
            possible(circumstances, replies[4]) && steps[5] == #[trigger] next_step(
                circumstances,
                steps[4]->state,
                replies[4],
            )
    } else {
        Circumstances { refused: seq![], colors: false }
    };
    if decided {
        assert(may_follow(steps[4]->state, replies[4], steps[5]));
    }
    assert forall|k: int|
        0 <= k < replies.len() && steps[k] is Ask && steps[k + 1] != StepView::Stop(
            Outcome::Aborted(AbortReason::UnexpectedReply),
        ) implies possible(circumstances, #[trigger] replies[k]) by {
        lemma_states_come_in_turn(start, replies, steps, k);
        assert(may_follow(steps[k]->state, replies[k], steps[k + 1]));
    }
    assert forall|k: nat| k < steps.len() implies steps[k as int] == #[trigger] step_after(
        circumstances,
        start,
        replies,
        k,
    ) by {
        lemma_steps_follow(circumstances, start, replies, steps, k);
    }
    assert(is_run(circumstances, start, replies, steps));
}

proof fn lemma_steps_follow(
    circumstances: Circumstances,
    start: StepView,
    replies: Seq<ReplyView>,
    steps: Seq<StepView>,
    k: nat,
)
    requires
        is_start(start),
        may_go_through(start, replies, steps),
        k < steps.len(),
        replies.len() > 4 && steps[4] is Ask && steps[4]->state is TransactionLines
            && replies[4] is Lines ==> steps[5] == next_step(
            circumstances,
            steps[4]->state,
            replies[4],
        ),
    ensures
        steps[k as int] == step_after(circumstances, start, replies, k),
    decreases k,
{
    if k > 0 {
        lemma_steps_follow(circumstances, start, replies, steps, (k - 1) as nat);
        lemma_states_come_in_turn(start, replies, steps, k - 1);
        if let StepView::Ask { request: _, state } = steps[k - 1] {
            assert(may_follow(state, replies[k - 1], steps[k as int]));
            assert(steps[k as int] == next_step(circumstances, state, replies[k - 1]));
        }
    }
}

proof fn lemma_stopped_hooks_do_nothing(
    circumstances: Circumstances,
    start: StepView,
    replies: Seq<ReplyView>,
    n: nat,
    m: nat,
)
    requires
        n <= m,
        step_after(circumstances, start, replies, n) is Stop,
    ensures
        written(circumstances, start, replies, m) == written(circumstances, start, replies, n),
        recorded(circumstances, start, replies, m) == recorded(circumstances, start, replies, n),
    decreases m,
{
    if n < m {
        lemma_stopped_hooks_do_nothing(circumstances, start, replies, n, (m - 1) as nat);
        law_stopped_hooks_stay_stopped(circumstances, start, replies, n, (m - 1) as nat);
    }
}

/// All that `reference-transaction` writes and records when all goes well: for a transaction that
/// is committed, one line if it keeps an update, and one event for each that it keeps; else
/// nothing.
pub proof fn law_reference_transaction_effects(
    circumstances: Circumstances,
    transaction_state: Seq<char>,
    replies: Seq<ReplyView>,
    n: nat,
)
    requires
        transaction_goes_well(replies),
        n >= 7,
    ensures
        ({
            let start = transaction_start(transaction_state);
            let updates = updates_of(circumstances, replies);
            let committed = transaction_state == "committed"@;
            &&& step_after(circumstances, start, replies, n) == StepView::Stop(Outcome::Completed)
            &&& written(circumstances, start, replies, n) == if committed && updates.len() > 0 {
                seq![update_message(updated_refs(updates), circumstances.colors)]
            } else {
                seq![]
            }
            &&& recorded(circumstances, start, replies, n) == if committed {
                update_events(
                    updates,
                    replies[0]->Clock_0->Some_0,
                    replies[2]->TransactionId_0,
                )
            } else {
                seq![]
            }
        }),
{
    let start = transaction_start(transaction_state);
    law_reference_transaction_completes(circumstances, transaction_state, replies);
    law_stopped_hooks_stay_stopped(circumstances, start, replies, 7, n);
    lemma_stopped_hooks_do_nothing(circumstances, start, replies, 7, n);
    let updates = updates_of(circumstances, replies);
    let s0 = step_after(circumstances, start, replies, 0);
    let s1 = step_after(circumstances, start, replies, 1);
    let s2 = step_after(circumstances, start, replies, 2);
    let s3 = step_after(circumstances, start, replies, 3);
    let s4 = step_after(circumstances, start, replies, 4);
    let s5 = step_after(circumstances, start, replies, 5);
    let s6 = step_after(circumstances, start, replies, 6);
    assert(s0 == start);
    reveal_with_fuel(written, 8);
    reveal_with_fuel(recorded, 8);
    if transaction_state == "committed"@ {
        assert(s4->state is TransactionLines);
        if updates.len() == 0 {
            assert(s5 is Stop);
            lemma_stopped_hooks_do_nothing(circumstances, start, replies, 5, 7);
        } else {
            assert(asks(s5, RequestView::WriteLine(
                update_message(updated_refs(updates), circumstances.colors),
            )));
            assert(s6->state is Finish);
        }
    } else {
        lemma_stopped_hooks_do_nothing(circumstances, start, replies, 0, 7);
    }
}

/// Lines without a part in what is kept may be added anywhere to those that
/// `reference-transaction` gets: in two runs in which all goes well, with the same packed
/// references, the same refusals of the lines that both get, and the same colours, the hook keeps
/// the same updates, writes the same, and records the same, time and transaction aside.
pub proof fn law_idle_lines_change_no_run(
    circumstances: Circumstances,
    other_circumstances: Circumstances,
    transaction_state: Seq<char>,
    replies: Seq<ReplyView>,
    other_replies: Seq<ReplyView>,
    marks: Seq<bool>,
    n: nat,
)
    requires
        transaction_goes_well(replies),
        transaction_goes_well(other_replies),
        n >= 7,
        packed_of(replies[3]) == packed_of(other_replies[3]),
        possible(other_circumstances, other_replies[4]),
        marks.len() == other_replies[4]->Lines_0.len(),
        forall|i: int|
            0 <= i < marks.len() && #[trigger] marks[i] ==> is_idle(
                other_replies[4]->Lines_0[i],
                other_circumstances.refused[i],
            ),
        replies[4]->Lines_0 == unmarked(other_replies[4]->Lines_0, marks),
        circumstances.refused == unmarked(other_circumstances.refused, marks),
        circumstances.colors == other_circumstances.colors,
    ensures
        ({
            let start = transaction_start(transaction_state);
            &&& step_after(circumstances, start, replies, n) == StepView::Stop(Outcome::Completed)
            &&& step_after(other_circumstances, start, other_replies, n) == StepView::Stop(
                Outcome::Completed,
            )
            &&& updates_of(circumstances, replies) == updates_of(other_circumstances, other_replies)
            &&& written(circumstances, start, replies, n) == written(
                other_circumstances,
                start,
                other_replies,
                n,
            )
            &&& same_events(
                recorded(circumstances, start, replies, n),
                recorded(other_circumstances, start, other_replies, n),
            )
        }),
{
    law_idle_lines_change_no_update(
        packed_of(replies[3]),
        other_replies[4]->Lines_0,
        other_circumstances.refused,
        marks,
    );
    law_reference_transaction_effects(circumstances, transaction_state, replies, n);
    law_reference_transaction_effects(other_circumstances, transaction_state, other_replies, n);
}

/// Each line that `reference-transaction` gets is handled apart from the others and in turn: where
/// the first of two inputs is empty or ends in a newline, what is recorded of the two in a row is
/// what is recorded of the first and then what is recorded of the second, times and transactions
/// aside. All goes well in the three runs, and they have the same packed references and the same
/// refusals.
pub proof fn law_inputs_in_a_row_add_up(
    circumstances: Circumstances,
    first_circumstances: Circumstances,
    second_circumstances: Circumstances,
    transaction_state: Seq<char>,
    replies: Seq<ReplyView>,
    first_replies: Seq<ReplyView>,
    second_replies: Seq<ReplyView>,
    first: Seq<u8>,
    second: Seq<u8>,
    n: nat,
)
    requires
        transaction_goes_well(replies),
        transaction_goes_well(first_replies),
        transaction_goes_well(second_replies),
        n >= 7,
        packed_of(first_replies[3]) == packed_of(replies[3]),
        packed_of(second_replies[3]) == packed_of(replies[3]),
        first.len() == 0 || first.last() == 0x0a,
        first_replies[4] == ReplyView::Lines(input_lines(first)),
        second_replies[4] == ReplyView::Lines(input_lines(second)),
        replies[4] == ReplyView::Lines(input_lines(first + second)),
        possible(first_circumstances, first_replies[4]),
        possible(second_circumstances, second_replies[4]),
        circumstances.refused == first_circumstances.refused + second_circumstances.refused,
    ensures
        ({
            let start = transaction_start(transaction_state);
            &&& updates_of(circumstances, replies) == updates_of(first_circumstances, first_replies)
                + updates_of(second_circumstances, second_replies)
            &&& same_events(
                recorded(circumstances, start, replies, n),
                recorded(first_circumstances, start, first_replies, n) + recorded(
                    second_circumstances,
                    start,
                    second_replies,
                    n,
                ),
            )
        }),
{
    law_pieces_of_two_texts(first, second, 0x0a);
    assert(input_lines(first + second) =~= input_lines(first) + input_lines(second));
    law_updates_keep_the_order_of_the_lines(
        packed_of(replies[3]),
        input_lines(first),
        input_lines(second),
        first_circumstances.refused,
        second_circumstances.refused,
    );
    law_reference_transaction_effects(circumstances, transaction_state, replies, n);
    law_reference_transaction_effects(first_circumstances, transaction_state, first_replies, n);
    law_reference_transaction_effects(second_circumstances, transaction_state, second_replies, n);
}

/// As long as its host does what it is asked for, `post-checkout` goes on: it reads the clock, says
/// that it is at work, opens the event log, begins a transaction, and records that `HEAD` moved from
/// the previous object ID to the current one; then it is done. It gives up over a wrong clock and over
/// a text that is no object ID, and does nothing where it is no branch that was checked out.
pub proof fn law_post_checkout_goes_on(
    circumstances: Circumstances,
    previous: Seq<char>,
    current: Seq<char>,
    is_branch_checkout: isize,
    replies: Seq<ReplyView>,
    timestamp: Timestamp,
    event_tx_id: EventTransactionId,
    old_oid: Seq<u8>,
    new_oid: Seq<u8>,
    err: ParseOidError,
)
    ensures
        ({
            let start = checkout_start(previous, current, is_branch_checkout);
            let step = |n: nat| step_after(circumstances, start, replies, n);
            let old = parsed_oid(encode_utf8(previous));
            let new = parsed_oid(encode_utf8(current));
            let is_clock = replies[0] == ReplyView::Clock(Some(timestamp));
            let is_transaction = replies[3] == ReplyView::TransactionId(event_tx_id);
            &&& is_branch_checkout == 0 ==> step(0) == StepView::Stop(Outcome::Completed)
            &&& is_branch_checkout != 0 ==> {
                &&& asks(step(0), RequestView::ReadClock)
                &&& replies[0] == ReplyView::Clock(None) ==> step(1) == StepView::Stop(
                    Outcome::Aborted(AbortReason::ClockBeforeEpoch),
                )
                &&& is_clock ==> asks(
                    step(1),
                    RequestView::WriteLine("branchless: processing checkout"@),
                )
                &&& is_clock && replies[1] is Done ==> {
                    &&& asks(step(2), RequestView::OpenEventLog)
                    &&& replies[2] is Done ==> {
                        &&& asks(step(3), RequestView::MakeTransactionId("hook-post-checkout"@))
                        &&& is_transaction && old == Err::<Seq<u8>, ParseOidError>(err) ==> step(4)
                            == StepView::Stop(
                            Outcome::Aborted(AbortReason::InvalidPreviousOid(err)),
                        )
                        &&& is_transaction && old is Ok && new == Err::<Seq<u8>, ParseOidError>(err)
                            ==> step(4) == StepView::Stop(
                            Outcome::Aborted(AbortReason::InvalidCurrentOid(err)),
                        )
                        &&& is_transaction && old == Ok::<Seq<u8>, ParseOidError>(old_oid) && new
                            == Ok::<Seq<u8>, ParseOidError>(new_oid) ==> {
                            &&& asks(
                                step(4),
                                RequestView::AddEvents(
                                    seq![
                                        EventView::RefUpdate {
                                            timestamp,
                                            event_tx_id,
                                            ref_name: encode_utf8("HEAD"@),
                                            old_oid,
                                            new_oid,
                                            message: None,
                                        },
                                    ],
                                ),
                            )
                            &&& replies[4] is Done ==> step(5) == StepView::Stop(Outcome::Completed)
                        }
                    }
                }
            }
        }),
{
    let start = checkout_start(previous, current, is_branch_checkout);
    assert(step_after(circumstances, start, replies, 0) == start);
    let s1 = step_after(circumstances, start, replies, 1);
    let s2 = step_after(circumstances, start, replies, 2);
    let s3 = step_after(circumstances, start, replies, 3);
    let s4 = step_after(circumstances, start, replies, 4);
    let s5 = step_after(circumstances, start, replies, 5);
    law_checkouts_are_recorded(
        circumstances,
        previous,
        current,
        timestamp,
        event_tx_id,
        old_oid,
        new_oid,
        err,
    );
}

/// All that `post-checkout` writes and records when all goes well: one line and one event.
pub proof fn law_post_checkout_effects(
    circumstances: Circumstances,
    previous: Seq<char>,
    current: Seq<char>,
    is_branch_checkout: isize,
    replies: Seq<ReplyView>,
    timestamp: Timestamp,
    event_tx_id: EventTransactionId,
    old_oid: Seq<u8>,
    new_oid: Seq<u8>,
    n: nat,
)
    requires
        is_branch_checkout != 0,
        parsed_oid(encode_utf8(previous)) == Ok::<Seq<u8>, ParseOidError>(old_oid),
        parsed_oid(encode_utf8(current)) == Ok::<Seq<u8>, ParseOidError>(new_oid),
        replies[0] == ReplyView::Clock(Some(timestamp)),
        replies[1] is Done,
        replies[2] is Done,
        replies[3] == ReplyView::TransactionId(event_tx_id),
        replies[4] is Done,
        n >= 5,
    ensures
        ({
            let start = checkout_start(previous, current, is_branch_checkout);
            &&& step_after(circumstances, start, replies, n) == StepView::Stop(Outcome::Completed)
            &&& written(circumstances, start, replies, n) == seq![
                "branchless: processing checkout"@,
            ]
            &&& recorded(circumstances, start, replies, n) == seq![
                EventView::RefUpdate {
                    timestamp,
                    event_tx_id,
                    ref_name: encode_utf8("HEAD"@),
                    old_oid,
                    new_oid,
                    message: None,
                },
            ]
        }),
{
    let start = checkout_start(previous, current, is_branch_checkout);
    law_post_checkout_goes_on(
        circumstances,
        previous,
        current,
        is_branch_checkout,
        replies,
        timestamp,
        event_tx_id,
        old_oid,
        new_oid,
        ParseOidError::Empty,
    );
    law_stopped_hooks_stay_stopped(circumstances, start, replies, 5, n);
    lemma_stopped_hooks_do_nothing(circumstances, start, replies, 5, n);
    reveal_with_fuel(written, 6);
    reveal_with_fuel(recorded, 6);
    let line = "branchless: processing checkout"@;
    assert(written(circumstances, start, replies, 5) =~= seq![line]);
}

/// As long as their host does what it is asked for, the hooks for new commits go on: they read the
/// clock, whatever it shows, open the event log and resolve `HEAD`. Where it points to a commit, they
/// look that commit up, keep it alive, begin a transaction in their own name, record what was found,
/// have it described and announce it; where it points to none, they are done.
pub proof fn law_commit_hooks_go_on(
    circumstances: Circumstances,
    hook_name: Seq<char>,
    replies: Seq<ReplyView>,
    head: Seq<u8>,
    oid: Seq<u8>,
    timestamp: Timestamp,
    event_tx_id: EventTransactionId,
    description: Seq<char>,
)
    ensures
        ({
            let step = |n: nat| step_after(circumstances, commit_start(hook_name), replies, n);
            let is_head = replies[2] == ReplyView::Head(Some(head));
            let is_commit = replies[3] == ReplyView::Commit { oid, timestamp };
            let is_transaction = replies[5] == ReplyView::TransactionId(event_tx_id);
            let is_description = replies[7] == ReplyView::Description(description);
            &&& asks(step(0), RequestView::ReadClock)
            &&& replies[0] is Clock ==> asks(step(1), RequestView::OpenEventLog)
            &&& replies[0] is Clock && replies[1] is Done ==> {
                &&& asks(step(2), RequestView::ResolveHead)
                &&& replies[2] == ReplyView::Head(None) ==> step(3) == StepView::Stop(
                    Outcome::Completed,
                )
                &&& is_head ==> asks(step(3), RequestView::FindCommit(head))
                &&& is_head && is_commit ==> {
                    &&& asks(step(4), RequestView::MarkCommitReachable(head))
                    &&& replies[4] is Done ==> asks(
                        step(5),
                        RequestView::MakeTransactionId(hook_name),
                    )
                    &&& replies[4] is Done && is_transaction ==> {
                        &&& asks(
                            step(6),
                            RequestView::AddEvents(
                                seq![EventView::Commit { timestamp, event_tx_id, commit_oid: oid }],
                            ),
                        )
                        &&& replies[6] is Done ==> asks(step(7), RequestView::DescribeCommit(oid))
                        &&& replies[6] is Done && is_description ==> {
                            &&& asks(
                                step(8),
                                RequestView::WriteLine(
                                    "branchless: processed commit: "@ + description,
                                ),
                            )
                            &&& replies[8] is Done ==> step(9) == StepView::Stop(Outcome::Completed)
                        }
                    }
                }
            }
        }),
{
    let start = commit_start(hook_name);
    assert(step_after(circumstances, start, replies, 0) == start);
    let s1 = step_after(circumstances, start, replies, 1);
    let s2 = step_after(circumstances, start, replies, 2);
    let s3 = step_after(circumstances, start, replies, 3);
    let s4 = step_after(circumstances, start, replies, 4);
    let s5 = step_after(circumstances, start, replies, 5);
    let s6 = step_after(circumstances, start, replies, 6);
    let s7 = step_after(circumstances, start, replies, 7);
    let s8 = step_after(circumstances, start, replies, 8);
    let s9 = step_after(circumstances, start, replies, 9);
    if replies[0] is Clock && replies[1] is Done && replies[2] == ReplyView::Head(Some(head))
        && replies[3] == (ReplyView::Commit { oid, timestamp }) {
        assert(s4 is Ask && s4->state is CommitMark);
        if replies[4] is Done && replies[5] == ReplyView::TransactionId(event_tx_id) {
            assert(s6 is Ask && s6->state is CommitRecord);
        }
    }
}

/// All that the hooks for new commits write and record when all goes well and `HEAD` points to a
/// commit: they announce the commit by its description, and record that it was made when it says so.
pub proof fn law_commit_hooks_effects(
    circumstances: Circumstances,
    hook_name: Seq<char>,
    replies: Seq<ReplyView>,
    head: Seq<u8>,
    oid: Seq<u8>,
    timestamp: Timestamp,
    event_tx_id: EventTransactionId,
    description: Seq<char>,
    n: nat,
)
    requires
        replies[0] is Clock,
        replies[1] is Done,
        replies[2] == ReplyView::Head(Some(head)),
        replies[3] == (ReplyView::Commit { oid, timestamp }),
        replies[4] is Done,
        replies[5] == ReplyView::TransactionId(event_tx_id),
        replies[6] is Done,
        replies[7] == ReplyView::Description(description),
        replies[8] is Done,
        n >= 9,
    ensures
        ({
            let start = commit_start(hook_name);
            &&& step_after(circumstances, start, replies, n) == StepView::Stop(Outcome::Completed)
            &&& written(circumstances, start, replies, n) == seq![
                "branchless: processed commit: "@ + description,
            ]
            &&& recorded(circumstances, start, replies, n) == seq![
                EventView::Commit { timestamp, event_tx_id, commit_oid: oid },
            ]
        }),
{
    let start = commit_start(hook_name);
    law_commit_hooks_go_on(
        circumstances,
        hook_name,
        replies,
        head,
        oid,
        timestamp,
        event_tx_id,
        description,
    );
    law_stopped_hooks_stay_stopped(circumstances, start, replies, 9, n);
    lemma_stopped_hooks_do_nothing(circumstances, start, replies, 9, n);
    reveal_with_fuel(written, 10);
    reveal_with_fuel(recorded, 10);
}

/// As long as its host does what it is asked for, `reference-transaction` goes on with a committed
/// transaction: it reads the clock, opens the event log, begins a transaction, and reads the packed
/// references and its lines. Where it keeps updates of them, it names their references, records each,
/// and is done; where it keeps none, it is done at once. A wrong clock makes it give up only when it
/// comes to record. With a transaction that is not committed it does nothing.
pub proof fn law_reference_transaction_goes_on(
    circumstances: Circumstances,
    transaction_state: Seq<char>,
    replies: Seq<ReplyView>,
    clock: Option<Timestamp>,
    event_tx_id: EventTransactionId,
    file: Option<Seq<u8>>,
    lines: Seq<Option<Seq<u8>>>,
)
    ensures
        ({
            let start = transaction_start(transaction_state);
            let step = |n: nat| step_after(circumstances, start, replies, n);
            let packed = match file {
                Some(text) => packed_file(text),
                None => Map::empty(),
            };
            let updates = kept_updates(packed, lines, circumstances.refused);
            let names = Seq::new(updates.len(), |i: int| updates[i].ref_name);
            let is_clock = replies[0] == ReplyView::Clock(clock);
            let is_transaction = replies[2] == ReplyView::TransactionId(event_tx_id);
            let is_file = replies[3] == ReplyView::PackedRefs(file);
            let is_lines = replies[4] == ReplyView::Lines(lines);
            &&& transaction_state != "committed"@ ==> step(0) == StepView::Stop(Outcome::Completed)
            &&& transaction_state == "committed"@ ==> asks(step(0), RequestView::ReadClock)
            &&& transaction_state == "committed"@ && is_clock ==> {
                &&& asks(step(1), RequestView::OpenEventLog)
                &&& replies[1] is Done ==> asks(
                    step(2),
                    RequestView::MakeTransactionId("reference-transaction"@),
                )
                &&& replies[1] is Done && is_transaction ==> {
                    &&& asks(step(3), RequestView::ReadPackedRefs)
                    &&& is_file ==> asks(step(4), RequestView::ReadLines)
                    &&& is_file && is_lines && updates.len() == 0 ==> step(5) == StepView::Stop(
                        Outcome::Completed,
                    )
                    &&& is_file && is_lines && updates.len() > 0 ==> {
                        &&& asks(
                            step(5),
                            RequestView::WriteLine(update_message(names, circumstances.colors)),
                        )
                        &&& replies[5] is Done ==> match clock {
                            None => step(6) == StepView::Stop(
                                Outcome::Aborted(AbortReason::ClockBeforeEpoch),
                            ),
                            Some(timestamp) => {
                                &&& asks(
                                    step(6),
                                    RequestView::AddEvents(
                                        Seq::new(
                                            updates.len(),
                                            |i: int|
                                                EventView::RefUpdate {
                                                    timestamp,
                                                    event_tx_id,
                                                    ref_name: updates[i].ref_name,
                                                    old_oid: updates[i].old_oid,
                                                    new_oid: updates[i].new_oid,
                                                    message: None,
                                                },
                                        ),
                                    ),
                                )
                                &&& replies[6] is Done ==> step(7) == StepView::Stop(
                                    Outcome::Completed,
                                )
                            },
                        }
                    }
                }
            }
        }),
{
    let start = transaction_start(transaction_state);
    let packed = match file {
        Some(text) => packed_file(text),
        None => Map::empty(),
    };
    let updates = kept_updates(packed, lines, circumstances.refused);
    assert(step_after(circumstances, start, replies, 0) == start);
    let s1 = step_after(circumstances, start, replies, 1);
    let s2 = step_after(circumstances, start, replies, 2);
    let s3 = step_after(circumstances, start, replies, 3);
    let s4 = step_after(circumstances, start, replies, 4);
    let s5 = step_after(circumstances, start, replies, 5);
    let s6 = step_after(circumstances, start, replies, 6);
    let s7 = step_after(circumstances, start, replies, 7);
    law_updates_are_announced_and_recorded(
        circumstances,
        updates,
        clock,
        event_tx_id,
        circumstances.colors,
    );
    if transaction_state == "committed"@ && replies[0] == ReplyView::Clock(clock) && replies[1]
        is Done && replies[2] == ReplyView::TransactionId(event_tx_id) && replies[3]
        == ReplyView::PackedRefs(file) {
        assert(s4 is Ask && s4->state == (StateView::TransactionLines { clock, event_tx_id, packed }));
        if replies[4] == ReplyView::Lines(lines) {
            assert(s5 == announce_updates(
                updates,
                clock,
                event_tx_id,
                circumstances.colors,
            ));
        }
    }
}

/// Where each line that `reference-transaction` gets reports an update in UTF-8 of a reference that
/// is not ignored, and all goes well, it records just these updates, each in its place and put right
/// by the packed references, and announces their references once.
pub proof fn law_reported_updates_are_recorded(
    circumstances: Circumstances,
    replies: Seq<ReplyView>,
    timestamp: Timestamp,
    event_tx_id: EventTransactionId,
    file: Option<Seq<u8>>,
    lines: Seq<Option<Seq<u8>>>,
    updates: Seq<RefUpdate>,
    n: nat,
)
    requires
        replies[0] == ReplyView::Clock(Some(timestamp)),
        replies[1] is Done,
        replies[2] == ReplyView::TransactionId(event_tx_id),
        replies[3] == ReplyView::PackedRefs(file),
        replies[4] == ReplyView::Lines(lines),
        replies[5] is Done,
        replies[6] is Done,
        n >= 7,
        possible(circumstances, replies[4]),
        lines.len() > 0,
        updates.len() == lines.len(),
        forall|i: int|
            0 <= i < lines.len() ==> {
                &&& #[trigger] lines[i] is Some
                &&& line_update(lines[i]->0) == Ok::<RefUpdate, TransactionLineError>(updates[i])
                &&& !is_ignored_ref(updates[i].ref_name)
                &&& forall|k: int|
                    0 <= k < pieces(lines[i]->0, 0x20).len() ==> valid_utf8(
                        #[trigger] pieces(lines[i]->0, 0x20)[k],
                    )
            },
    ensures
        ({
            let start = transaction_start("committed"@);
            let packed = match file {
                Some(text) => packed_file(text),
                None => Map::empty(),
            };
            let names = Seq::new(updates.len(), |i: int| updates[i].ref_name);
            &&& step_after(circumstances, start, replies, n) == StepView::Stop(Outcome::Completed)
            &&& written(circumstances, start, replies, n) == seq![
                update_message(names, circumstances.colors),
            ]
            &&& recorded(circumstances, start, replies, n) == Seq::new(
                updates.len(),
                |i: int|
                    EventView::RefUpdate {
                        timestamp,
                        event_tx_id,
                        ref_name: updates[i].ref_name,
                        old_oid: fixed_update(packed, updates[i]).old_oid,
                        new_oid: fixed_update(packed, updates[i]).new_oid,
                        message: None,
                    },
            )
        }),
{
    let start = transaction_start("committed"@);
    let packed = match file {
        Some(text) => packed_file(text),
        None => Map::empty(),
    };
    let kept = kept_updates(packed, lines, circumstances.refused);
    law_every_reported_update_is_kept(packed, lines, circumstances.refused, updates);
    assert forall|i: int| 0 <= i < updates.len() implies (#[trigger] kept[i]).ref_name
        == updates[i].ref_name by {
        law_fixing_changes_nothing_else(packed, updates[i]);
    }
    law_reference_transaction_effects(circumstances, "committed"@, replies, n);
    assert(updates_of(circumstances, replies) == kept);
    assert(updated_refs(kept) =~= Seq::new(updates.len(), |i: int| updates[i].ref_name));
}

/// What kind of request a hook has made when it stands in `state`.
spec fn made_in(request: RequestView, state: StateView) -> bool {
    match state {
        StateView::CheckoutClock { .. } => request is ReadClock,
        StateView::CheckoutAnnounce { .. } => request is WriteLine,
        StateView::CheckoutOpen { .. } => request is OpenEventLog,
        StateView::CheckoutBegin { .. } => request is MakeTransactionId,
        StateView::CommitClock { .. } => request is ReadClock,
        StateView::CommitOpen { .. } => request is OpenEventLog,
        StateView::CommitResolve { .. } => request is ResolveHead,
        StateView::CommitFind { .. } => request is FindCommit,
        StateView::CommitMark { .. } => request is MarkCommitReachable,
        StateView::CommitBegin { .. } => request is MakeTransactionId,
        StateView::CommitRecord { .. } => request is AddEvents,
        StateView::CommitDescribe => request is DescribeCommit,
        StateView::TransactionClock => request is ReadClock,
        StateView::TransactionOpen { .. } => request is OpenEventLog,
        StateView::TransactionBegin { .. } => request is MakeTransactionId,
        StateView::TransactionPacked { .. } => request is ReadPackedRefs,
        StateView::TransactionLines { .. } => request is ReadLines,
        StateView::TransactionAnnounce { .. } => request is WriteLine,
        StateView::Finish => request is WriteLine || request is AddEvents,
    }
}

proof fn lemma_requests_fit_their_states(
    circumstances: Circumstances,
    start: StepView,
    replies: Seq<ReplyView>,
    n: nat,
)
    requires
        is_start(start),
    ensures
        step_after(circumstances, start, replies, n) matches StepView::Ask { request, state }
            ==> made_in(request, state),
    decreases n,
{
    if n > 0 {
        lemma_requests_fit_their_states(circumstances, start, replies, (n - 1) as nat);
    }
}

/// A hook takes just the replies of the kind that it has asked for: on any other, but a failure, it
/// gives up for that reason, and on one of that kind it never does.
pub proof fn law_replies_must_fit(
    circumstances: Circumstances,
    start: StepView,
    replies: Seq<ReplyView>,
    n: nat,
    request: RequestView,
)
    requires
        is_start(start),
        asks(step_after(circumstances, start, replies, n), request),
    ensures
        ({
            let reply = replies[n as int];
            let fits = match request {
                RequestView::ReadClock => reply is Clock,
                RequestView::WriteLine(_) => reply is Done,
                RequestView::OpenEventLog => reply is Done,
                RequestView::MakeTransactionId(_) => reply is TransactionId,
                RequestView::ResolveHead => reply is Head,
                RequestView::FindCommit(_) => reply is Commit,
                RequestView::MarkCommitReachable(_) => reply is Done,
                RequestView::DescribeCommit(_) => reply is Description,
                RequestView::ReadPackedRefs => reply is PackedRefs,
                RequestView::ReadLines => reply is Lines,
                RequestView::AddEvents(_) => reply is Done,
            };
            &&& step_after(circumstances, start, replies, n + 1) == StepView::Stop(
                Outcome::Aborted(AbortReason::UnexpectedReply),
            ) <==> !fits && !(reply is Failed)
            &&& step_after(circumstances, start, replies, n + 1) == StepView::Stop(
                Outcome::Aborted(AbortReason::RequestFailed),
            ) <==> reply is Failed
        }),
{
    lemma_requests_fit_their_states(circumstances, start, replies, n);
}

} // verus!
