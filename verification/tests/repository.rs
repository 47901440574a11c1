use branchless_hooks::repository::{is_rebase_underway, RepositoryState};
use git2::{Commit, ObjectType, Oid, Repository, Signature};

fn state(repo: &Repository) -> RepositoryState {
    match repo.state() {
        git2::RepositoryState::Clean => RepositoryState::Clean,
        git2::RepositoryState::Merge => RepositoryState::Merge,
        git2::RepositoryState::Revert => RepositoryState::Revert,
        git2::RepositoryState::RevertSequence => RepositoryState::RevertSequence,
        git2::RepositoryState::CherryPick => RepositoryState::CherryPick,
        git2::RepositoryState::CherryPickSequence => RepositoryState::CherryPickSequence,
        git2::RepositoryState::Bisect => RepositoryState::Bisect,
        git2::RepositoryState::Rebase => RepositoryState::Rebase,
        git2::RepositoryState::RebaseInteractive => RepositoryState::RebaseInteractive,
        git2::RepositoryState::RebaseMerge => RepositoryState::RebaseMerge,
        git2::RepositoryState::ApplyMailbox => RepositoryState::ApplyMailbox,
        git2::RepositoryState::ApplyMailboxOrRebase => RepositoryState::ApplyMailboxOrRebase,
    }
}

fn init_repo() -> Repository {
    let nanos = std::time::SystemTime::now()
        .duration_since(std::time::SystemTime::UNIX_EPOCH)
        .unwrap()
        .as_nanos();
    let repo = Repository::init(format!("/tmp/branchless_hooks_{}", nanos)).unwrap();
    commit_file_with_contents(&repo, "initial", 0, "initial");
    repo
}

/// Commits the file `name.txt` on top of `HEAD`.
fn commit_file_with_contents(repo: &Repository, name: &str, time: i64, contents: &str) -> Oid {
    let signature = Signature::new("Testy McTestface", "test@example.com", &git2::Time::new(time, 0))
        .unwrap();
    let parents: Vec<Commit> = match repo.head() {
        Ok(head) => vec![head.peel_to_commit().unwrap()],
        Err(_) => vec![],
    };
    let base = parents.first().map(|parent| parent.tree().unwrap());
    let mut builder = repo.treebuilder(base.as_ref()).unwrap();
    let blob = repo.blob(format!("{}\n", contents).as_bytes()).unwrap();
    builder.insert(format!("{}.txt", name), blob, 0o100644).unwrap();
    let tree = repo.find_tree(builder.write().unwrap()).unwrap();
    let parents: Vec<&Commit> = parents.iter().collect();
    let message = format!("create {}.txt", name);
    let oid = repo.commit(Some("HEAD"), &signature, &signature, &message, &tree, &parents).unwrap();
    repo.checkout_head(Some(git2::build::CheckoutBuilder::new().force())).unwrap();
    oid
}

fn checkout(repo: &Repository, target: &str) {
    let commit = repo.revparse_single(target).unwrap().peel(ObjectType::Commit).unwrap();
    repo.set_head_detached(commit.id()).unwrap();
    repo.checkout_head(Some(git2::build::CheckoutBuilder::new().force())).unwrap();
}

/// Rebases `HEAD` onto `target`, up to the first conflict. Says whether there was one.
fn rebase(repo: &Repository, target: &str) -> bool {
    let upstream = repo.find_annotated_commit(Oid::from_str(target).unwrap()).unwrap();
    let mut rebase = repo.rebase(None, Some(&upstream), None, None).unwrap();
    while let Some(operation) = rebase.next() {
        operation.unwrap();
        if repo.index().unwrap().has_conflicts() {
            return true;
        }
    }
    rebase.finish(None).unwrap();
    false
}

#[test]
fn test_is_rebase_underway() {
    let repo = init_repo();
    assert!(!is_rebase_underway(state(&repo)));

    let oid1 = commit_file_with_contents(&repo, "test", 1, "foo");
    checkout(&repo, "HEAD^");
    commit_file_with_contents(&repo, "test", 1, "bar");
    assert!(rebase(&repo, &oid1.to_string()));
    assert!(is_rebase_underway(state(&repo)));
}

#[test]
fn only_rebases_count() {
    assert!(is_rebase_underway(RepositoryState::Rebase));
    assert!(is_rebase_underway(RepositoryState::RebaseInteractive));
    assert!(is_rebase_underway(RepositoryState::RebaseMerge));
    assert!(!is_rebase_underway(RepositoryState::Clean));
    assert!(!is_rebase_underway(RepositoryState::Merge));
    assert!(!is_rebase_underway(RepositoryState::ApplyMailbox));
    assert!(!is_rebase_underway(RepositoryState::ApplyMailboxOrRebase));
}
