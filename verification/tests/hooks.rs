use branchless_hooks::event_log::{Event, EventTransactionId, Timestamp};
use branchless_hooks::hooks::{
    hook_post_checkout, hook_post_commit, hook_post_commit_common, hook_post_merge,
    hook_reference_transaction, make_update_events, resume,
};
use branchless_hooks::oid::{MaybeZeroOid, NonZeroOid, ParseOidError};
use branchless_hooks::protocol::{AbortReason, Outcome, Reply, Request, Step};
use branchless_hooks::reference_transaction::ParsedReferenceTransactionLine;

const TIME: Timestamp = Timestamp { secs: 1_700_000_000, nanos: 500_000_000 };
const COMMIT_TIME: Timestamp = Timestamp { secs: -5, nanos: 0 };
const TX: EventTransactionId = EventTransactionId { id: 7 };

fn oid(text: &str) -> MaybeZeroOid {
    MaybeZeroOid::from_str(text).unwrap()
}

fn commit_oid(text: &str) -> NonZeroOid {
    match oid(text) {
        MaybeZeroOid::NonZero(oid) => oid,
        MaybeZeroOid::Zero => panic!("zero"),
    }
}

/// Hands `replies` to the hook one by one. Yields what it asked for, and how it ended if it did.
fn run(start: Step, replies: Vec<Reply>) -> (Vec<Request>, Option<Outcome>) {
    let mut requests = Vec::new();
    let mut step = start;
    let mut replies = replies.into_iter();
    loop {
        match step {
            Step::Stop(outcome) => return (requests, Some(outcome)),
            Step::Ask { request, state } => {
                requests.push(request);
                match replies.next() {
                    None => return (requests, None),
                    Some(reply) => step = resume(state, reply),
                }
            }
        }
    }
}

fn aborted(reason: AbortReason) -> Option<Outcome> {
    Some(Outcome::Aborted(reason))
}

fn ref_update(ref_name: &str, old_oid: &str, new_oid: &str) -> Event {
    Event::RefUpdateEvent {
        timestamp: TIME,
        event_tx_id: TX,
        ref_name: ref_name.as_bytes().to_vec(),
        old_oid: oid(old_oid),
        new_oid: oid(new_oid),
        message: None,
    }
}

fn checkout_replies() -> Vec<Reply> {
    vec![
        Reply::Clock(Some(TIME)),
        Reply::Done,
        Reply::Done,
        Reply::TransactionId(TX),
        Reply::Done,
    ]
}

fn commit_replies() -> Vec<Reply> {
    vec![
        Reply::Clock(Some(TIME)),
        Reply::Done,
        Reply::Head(Some(commit_oid("123abc"))),
        Reply::Commit { oid: commit_oid("123abc"), timestamp: COMMIT_TIME },
        Reply::Done,
        Reply::TransactionId(TX),
        Reply::Done,
        Reply::Description("123abc create test.txt".to_string()),
        Reply::Done,
    ]
}

fn transaction_replies(file: Option<&[u8]>, lines: &[&[u8]]) -> Vec<Reply> {
    vec![
        Reply::Clock(Some(TIME)),
        Reply::Done,
        Reply::TransactionId(TX),
        Reply::PackedRefs(file.map(|file| file.to_vec())),
        Reply::Lines(lines.iter().map(|line| Some(line.to_vec())).collect()),
        Reply::Done,
        Reply::Done,
    ]
}

#[test]
fn post_checkout_records_the_move_of_head() {
    let (requests, outcome) = run(hook_post_checkout("123abc", "456def", 1), checkout_replies());
    assert_eq!(requests, vec![
        Request::ReadClock,
        Request::WriteLine("branchless: processing checkout".to_string()),
        Request::OpenEventLog,
        Request::MakeTransactionId("hook-post-checkout".to_string()),
        Request::AddEvents(vec![ref_update("HEAD", "123abc", "456def")]),
    ]);
    assert_eq!(outcome, Some(Outcome::Completed));
}

#[test]
fn post_checkout_of_files_does_nothing() {
    let (requests, outcome) = run(hook_post_checkout("123abc", "456def", 0), checkout_replies());
    assert_eq!(requests, vec![]);
    assert_eq!(outcome, Some(Outcome::Completed));
    let (requests, _) = run(hook_post_checkout("123abc", "456def", -1), checkout_replies());
    assert_eq!(requests.len(), 5);
}

#[test]
fn post_checkout_refuses_texts_that_are_no_oid() {
    let (requests, outcome) = run(hook_post_checkout("", "x", 1), checkout_replies());
    assert_eq!(requests.len(), 4);
    assert_eq!(outcome, aborted(AbortReason::InvalidPreviousOid(ParseOidError::Empty)));
    let (requests, outcome) = run(hook_post_checkout("1", "x", 1), checkout_replies());
    assert_eq!(requests.len(), 4);
    assert_eq!(outcome, aborted(AbortReason::InvalidCurrentOid(ParseOidError::InvalidCharacter)));
}

#[test]
fn post_checkout_needs_a_clock_that_is_right() {
    let (requests, outcome) = run(hook_post_checkout("1", "2", 1), vec![Reply::Clock(None)]);
    assert_eq!(requests, vec![Request::ReadClock]);
    assert_eq!(outcome, aborted(AbortReason::ClockBeforeEpoch));
}

#[test]
fn post_commit_records_the_commit() {
    let (requests, outcome) = run(hook_post_commit(), commit_replies());
    assert_eq!(requests, vec![
        Request::ReadClock,
        Request::OpenEventLog,
        Request::ResolveHead,
        Request::FindCommit(commit_oid("123abc")),
        Request::MarkCommitReachable(commit_oid("123abc")),
        Request::MakeTransactionId("post-commit".to_string()),
        Request::AddEvents(vec![Event::CommitEvent {
            timestamp: COMMIT_TIME,
            event_tx_id: TX,
            commit_oid: commit_oid("123abc"),
        }]),
        Request::DescribeCommit(commit_oid("123abc")),
        Request::WriteLine("branchless: processed commit: 123abc create test.txt".to_string()),
    ]);
    assert_eq!(outcome, Some(Outcome::Completed));
}

#[test]
fn post_merge_is_post_commit_under_another_name() {
    let (mut merge, outcome) = run(hook_post_merge(0), commit_replies());
    let (commit, _) = run(hook_post_commit(), commit_replies());
    assert_eq!(merge[5], Request::MakeTransactionId("post-merge".to_string()));
    merge[5] = Request::MakeTransactionId("post-commit".to_string());
    assert_eq!(merge, commit);
    assert_eq!(outcome, Some(Outcome::Completed));
    let (other, _) = run(hook_post_commit_common("other"), commit_replies());
    assert_eq!(other[5], Request::MakeTransactionId("other".to_string()));
}

#[test]
fn commit_hooks_stop_where_head_has_no_commit() {
    let replies = vec![Reply::Clock(None), Reply::Done, Reply::Head(None)];
    let (requests, outcome) = run(hook_post_commit(), replies);
    assert_eq!(requests, vec![Request::ReadClock, Request::OpenEventLog, Request::ResolveHead]);
    assert_eq!(outcome, Some(Outcome::Completed));
}

fn check_updates_in_colour() {
    console::set_colors_enabled(true);
    let file: &[u8] = b"# pack-refs with: peeled\nabc123 refs/heads/foo\n";
    let lines: Vec<&[u8]> = vec![
        b"0 abc123 refs/heads/foo",
        b"1 2 ORIG_HEAD",
        b"there are not three fields here",
        b"1 2 HEAD",
    ];
    let (requests, outcome) =
        run(hook_reference_transaction("committed"), transaction_replies(Some(file), &lines));
    assert_eq!(requests, vec![
        Request::ReadClock,
        Request::OpenEventLog,
        Request::MakeTransactionId("reference-transaction".to_string()),
        Request::ReadPackedRefs,
        Request::ReadLines,
        Request::WriteLine(
            "branchless: processing 2 updates: \
             \x1b[32mbranch foo\x1b[0m, \x1b[32mref HEAD\x1b[0m"
                .to_string()
        ),
        Request::AddEvents(vec![
            ref_update("refs/heads/foo", "abc123", "abc123"),
            ref_update("HEAD", "1", "2"),
        ]),
    ]);
    assert_eq!(outcome, Some(Outcome::Completed));
}

fn check_updates_without_packed_references() {
    console::set_colors_enabled(false);
    let lines: Vec<&[u8]> = vec![b"0 abc123 refs/heads/foo"];
    let (requests, outcome) =
        run(hook_reference_transaction("committed"), transaction_replies(None, &lines));
    assert_eq!(
        requests[5],
        Request::WriteLine("branchless: processing 1 update: branch foo".to_string())
    );
    assert_eq!(
        requests[6],
        Request::AddEvents(vec![ref_update("refs/heads/foo", "0", "abc123")])
    );
    assert_eq!(outcome, Some(Outcome::Completed));
}

/// One test, since whether colours are enabled is the same for the whole process.
#[test]
fn reference_transaction_announces_and_records_the_updates() {
    check_updates_in_colour();
    check_updates_without_packed_references();
    check_message_with_idle_lines();
}

#[test]
fn reference_transaction_is_recorded_only_when_committed() {
    for state in ["prepared", "aborted", "", "Committed", "committed "] {
        let (requests, outcome) =
            run(hook_reference_transaction(state), transaction_replies(None, &[b"1 2 HEAD"]));
        assert_eq!(requests, vec![]);
        assert_eq!(outcome, Some(Outcome::Completed));
    }
}

#[test]
fn reference_transaction_without_updates_of_interest_says_nothing() {
    let lines: Vec<&[u8]> = vec![b"1 2 ORIG_HEAD", b""];
    let (requests, outcome) =
        run(hook_reference_transaction("committed"), transaction_replies(None, &lines));
    assert_eq!(requests.len(), 5);
    assert_eq!(requests[4], Request::ReadLines);
    assert_eq!(outcome, Some(Outcome::Completed));
}

#[test]
fn reference_transaction_needs_a_clock_that_is_right() {
    let mut replies = transaction_replies(None, &[b"1 2 HEAD"]);
    replies[0] = Reply::Clock(None);
    let (requests, outcome) = run(hook_reference_transaction("committed"), replies);
    assert_eq!(requests.len(), 6);
    assert_eq!(outcome, aborted(AbortReason::ClockBeforeEpoch));
}

/// What a committed reference transaction writes and records.
fn effects(file: Option<&[u8]>, lines: &[&[u8]]) -> (Vec<String>, Vec<Event>) {
    let (requests, outcome) =
        run(hook_reference_transaction("committed"), transaction_replies(file, lines));
    assert_eq!(outcome, Some(Outcome::Completed));
    let mut written = Vec::new();
    let mut recorded = Vec::new();
    for request in requests {
        match request {
            Request::WriteLine(line) => written.push(line),
            Request::AddEvents(events) => recorded.extend(events),
            _ => {}
        }
    }
    (written, recorded)
}

#[test]
fn idle_lines_change_nothing() {
    let file: Option<&[u8]> = Some(b"abc123 refs/heads/foo\n");
    let lines: Vec<&[u8]> = vec![b"abc123 0 refs/heads/foo", b"1 2 HEAD"];
    let more: Vec<&[u8]> = vec![
        b"",
        b"abc123 0 refs/heads/foo",
        b"1 2 ORIG_HEAD",
        b"1 x HEAD",
        b"there are not three fields here",
        b"1 2 HEAD",
        b"1 2 refs/branchless/1",
    ];
    let (_, plain) = effects(file, &lines);
    let (_, padded) = effects(file, &more);
    assert_eq!(plain, vec![
        ref_update("refs/heads/foo", "abc123", "abc123"),
        ref_update("HEAD", "1", "2"),
    ]);
    assert_eq!(padded, plain);
}

fn check_message_with_idle_lines() {
    let plain: Vec<&[u8]> = vec![b"1 2 refs/heads/b", b"1 2 refs/heads/a"];
    let padded: Vec<&[u8]> = vec![b"1 2 refs/heads/b", b"", b"1 2", b"1 2 refs/heads/a"];
    console::set_colors_enabled(false);
    let (written, _) = effects(None, &plain);
    let (padded_written, _) = effects(None, &padded);
    assert_eq!(written, vec!["branchless: processing 2 updates: branch a, branch b".to_string()]);
    assert_eq!(padded_written, written);
}

#[test]
fn inputs_in_a_row_add_up() {
    let first: Vec<&[u8]> = vec![b"1 2 HEAD", b"1 2 refs/heads/foo"];
    let second: Vec<&[u8]> = vec![b"2 3 HEAD"];
    let both: Vec<&[u8]> = vec![b"1 2 HEAD", b"1 2 refs/heads/foo", b"2 3 HEAD"];
    let (_, mut expected) = effects(None, &first);
    expected.extend(effects(None, &second).1);
    assert_eq!(effects(None, &both).1, expected);
    assert_eq!(expected.len(), 3);
    assert_eq!(expected[2], ref_update("HEAD", "2", "3"));
}

#[test]
fn described_commit_is_the_one_that_is_recorded() {
    let mut replies = commit_replies();
    replies[3] = Reply::Commit { oid: commit_oid("456def"), timestamp: COMMIT_TIME };
    let (requests, _) = run(hook_post_commit(), replies);
    assert_eq!(requests[4], Request::MarkCommitReachable(commit_oid("123abc")));
    assert_eq!(requests[6], Request::AddEvents(vec![Event::CommitEvent {
        timestamp: COMMIT_TIME,
        event_tx_id: TX,
        commit_oid: commit_oid("456def"),
    }]));
    assert_eq!(requests[7], Request::DescribeCommit(commit_oid("456def")));
}

#[test]
fn failed_requests_end_the_hook() {
    for n in 0..9 {
        let mut replies = commit_replies();
        replies[n] = Reply::Failed;
        let (requests, outcome) = run(hook_post_commit(), replies);
        assert_eq!(requests.len(), n + 1);
        assert_eq!(outcome, aborted(AbortReason::RequestFailed));
    }
    for n in 0..5 {
        let mut replies = checkout_replies();
        replies[n] = Reply::Failed;
        let (requests, outcome) = run(hook_post_checkout("1", "2", 1), replies);
        assert_eq!(requests.len(), n + 1);
        assert_eq!(outcome, aborted(AbortReason::RequestFailed));
    }
    for n in 0..7 {
        let mut replies = transaction_replies(None, &[b"1 2 HEAD"]);
        replies[n] = Reply::Failed;
        let (requests, outcome) = run(hook_reference_transaction("committed"), replies);
        assert_eq!(requests.len(), n + 1);
        assert_eq!(outcome, aborted(AbortReason::RequestFailed));
    }
}

#[test]
fn replies_must_fit_the_request() {
    let (requests, outcome) = run(hook_post_commit(), vec![Reply::Done]);
    assert_eq!(requests, vec![Request::ReadClock]);
    assert_eq!(outcome, aborted(AbortReason::UnexpectedReply));
}

#[test]
fn each_update_makes_one_event() {
    let updates = vec![
        ParsedReferenceTransactionLine {
            ref_name: b"HEAD".to_vec(),
            old_oid: oid("1"),
            new_oid: oid("2"),
        },
        ParsedReferenceTransactionLine {
            ref_name: b"refs/heads/foo".to_vec(),
            old_oid: oid("2"),
            new_oid: oid("0"),
        },
    ];
    assert_eq!(make_update_events(updates, TIME, TX), vec![
        ref_update("HEAD", "1", "2"),
        ref_update("refs/heads/foo", "2", "0"),
    ]);
}
