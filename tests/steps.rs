use nauttaja::steps::{CreateAction, CreatePhase, DeleteAction, DeletePhase};

#[test]
fn create_copies_before_it_commits() {
    assert_eq!(CreatePhase::Start.next_action(), CreateAction::CopyIn);
    assert_eq!(CreatePhase::Start.advance(true), CreatePhase::Copied);
    assert_eq!(CreatePhase::Copied.next_action(), CreateAction::Commit);
    assert_eq!(CreatePhase::Copied.advance(true), CreatePhase::Created);
    assert_eq!(CreatePhase::Created.next_action(), CreateAction::Stop);
    assert!(CreatePhase::Created.is_done());
    assert!(!CreatePhase::Copied.is_done());
}

#[test]
fn failed_copy_never_commits() {
    let p = CreatePhase::Start.advance(false);
    assert_eq!(p, CreatePhase::Failed);
    assert!(p.is_done());
    assert_eq!(p.next_action(), CreateAction::Stop);
    assert_eq!(CreatePhase::Copied.advance(false), CreatePhase::Failed);
}

#[test]
fn delete_commits_before_removing_storage() {
    assert_eq!(DeletePhase::Start.next_action(), DeleteAction::Commit);
    assert_eq!(DeletePhase::Start.advance(true), DeletePhase::Committed);
    assert_eq!(DeletePhase::Committed.next_action(), DeleteAction::RemoveStorage);
    assert_eq!(DeletePhase::Committed.advance(true), DeletePhase::Deleted);
    assert!(DeletePhase::Deleted.is_done());
}

#[test]
fn delete_failures_end_the_run() {
    assert_eq!(DeletePhase::Start.advance(false), DeletePhase::Failed);
    assert_eq!(DeletePhase::Committed.advance(false), DeletePhase::Orphaned);
    assert_eq!(DeletePhase::Orphaned.next_action(), DeleteAction::Stop);
    assert_eq!(DeletePhase::Failed.advance(true), DeletePhase::Failed);
}
