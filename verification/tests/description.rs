use branchless_hooks::description::{
    categorize, decimal, describe_as, describe_commit, describe_updates, friendly_describe,
    pluralize, ReferenceCategory,
};
use branchless_hooks::oid::MaybeZeroOid;
use branchless_hooks::reference_transaction::ParsedReferenceTransactionLine;

fn message(names: &[&str], colors: bool) -> String {
    let updates = names
        .iter()
        .map(|name| ParsedReferenceTransactionLine {
            ref_name: name.as_bytes().to_vec(),
            old_oid: MaybeZeroOid::Zero,
            new_oid: MaybeZeroOid::Zero,
        })
        .collect();
    describe_updates(&updates, colors)
}

#[test]
fn references_are_told_apart_by_their_prefix() {
    assert_eq!(categorize(b"refs/heads/"), (ReferenceCategory::LocalBranch, &b""[..]));
    assert_eq!(
        categorize(b"refs/remotes/origin/foo"),
        (ReferenceCategory::RemoteBranch, &b"origin/foo"[..])
    );
    assert_eq!(categorize(b"refs/heads"), (ReferenceCategory::OtherRef, &b"refs/heads"[..]));
    assert_eq!(describe_as(ReferenceCategory::RemoteBranch, "x"), "remote branch x");
}

#[test]
fn numbers_are_written_in_decimal() {
    assert_eq!(decimal(0), "0");
    assert_eq!(decimal(9), "9");
    assert_eq!(decimal(10), "10");
    assert_eq!(decimal(1203), "1203");
    assert_eq!(decimal(usize::MAX), format!("{}", usize::MAX));
}

#[test]
fn units_agree_with_their_amount() {
    assert_eq!(pluralize(0, "update", "updates"), "0 updates");
    assert_eq!(pluralize(1, "update", "updates"), "1 update");
    assert_eq!(pluralize(21, "update", "updates"), "21 updates");
}

#[test]
fn references_are_described() {
    assert_eq!(friendly_describe(b"refs/heads/foo/bar"), "branch foo/bar");
    assert_eq!(friendly_describe(b"refs/remotes/origin/foo"), "remote branch origin/foo");
    assert_eq!(friendly_describe(b"refs/tags/v1"), "ref refs/tags/v1");
    assert_eq!(friendly_describe(b"HEAD"), "ref HEAD");
    assert_eq!(friendly_describe("refs/heads/\u{e4}".as_bytes()), "branch \u{e4}");
    assert_eq!(friendly_describe(b"refs/heads/\xffoo"), "branch \u{fffd}oo");
}

#[test]
fn updates_are_announced_in_order() {
    assert_eq!(
        message(&["HEAD", "refs/heads/foo", "refs/heads/bar"], false),
        "branchless: processing 3 updates: branch bar, branch foo, ref HEAD"
    );
    assert_eq!(message(&["HEAD"], false), "branchless: processing 1 update: ref HEAD");
}

#[test]
fn order_of_the_updates_does_not_matter() {
    let left = message(&["HEAD", "refs/heads/b", "refs/heads/a", "HEAD"], false);
    let right = message(&["refs/heads/a", "HEAD", "HEAD", "refs/heads/b"], false);
    assert_eq!(left, right);
    assert_eq!(
        left,
        "branchless: processing 4 updates: branch a, branch b, ref HEAD, ref HEAD"
    );
}

#[test]
fn updates_are_announced_in_green() {
    assert_eq!(
        message(&["refs/heads/foo", "refs/heads/bar"], true),
        "branchless: processing 2 updates: \
         \x1b[32mbranch bar\x1b[0m, \x1b[32mbranch foo\x1b[0m"
    );
}

#[test]
fn commits_are_announced() {
    assert_eq!(
        describe_commit("123abc create test.txt"),
        "branchless: processed commit: 123abc create test.txt"
    );
}
