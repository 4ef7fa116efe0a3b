use mona::error::Error;
use mona::sync::{
    branch_name, commit_message, commit_parents, merge_commit_message, push_refspec,
    setup_commit_message, SyncAction, SyncEvent, SyncPhase, Synchronizer,
};

fn run(remotes: usize, events: &[SyncEvent]) -> (Vec<SyncAction>, Synchronizer) {
    let mut state = Synchronizer::start(remotes);
    let mut actions = vec![state.action()];
    for e in events {
        state = state.step(*e);
        actions.push(state.action());
    }
    (actions, state)
}

#[test]
fn without_remotes_only_the_local_commit_is_made() {
    let (actions, state) = run(
        0,
        &[SyncEvent::Staged { files_changed: 2 }, SyncEvent::Committed, SyncEvent::CheckedOut],
    );
    assert_eq!(
        actions,
        vec![SyncAction::StageAll, SyncAction::Commit, SyncAction::CheckoutHead, SyncAction::Finish]
    );
    assert!(state.is_done());
    assert_eq!(state.outcome(), Some(Ok(())));
}

#[test]
fn nothing_staged_means_no_commit() {
    let (actions, _) = run(0, &[SyncEvent::Staged { files_changed: 0 }, SyncEvent::CheckedOut]);
    assert_eq!(actions, vec![SyncAction::StageAll, SyncAction::CheckoutHead, SyncAction::Finish]);
}

#[test]
fn all_remotes_are_pulled_before_any_is_pushed() {
    let (actions, state) = run(
        2,
        &[
            SyncEvent::Fetched { has_branch: true },
            SyncEvent::Merged { conflicts: false, files_changed: 3 },
            SyncEvent::Committed,
            SyncEvent::Fetched { has_branch: true },
            SyncEvent::Merged { conflicts: false, files_changed: 0 },
            SyncEvent::Staged { files_changed: 1 },
            SyncEvent::Committed,
            SyncEvent::CheckedOut,
            SyncEvent::Pushed,
            SyncEvent::Pushed,
        ],
    );
    assert_eq!(
        actions,
        vec![
            SyncAction::Fetch(0),
            SyncAction::Merge(0),
            SyncAction::CommitMerge(0),
            SyncAction::Fetch(1),
            SyncAction::Merge(1),
            SyncAction::StageAll,
            SyncAction::Commit,
            SyncAction::CheckoutHead,
            SyncAction::Push(0),
            SyncAction::Push(1),
            SyncAction::Finish,
        ]
    );
    assert_eq!(state.phase, SyncPhase::Finished);
}

#[test]
fn remote_without_history_is_not_merged() {
    let (actions, _) = run(1, &[SyncEvent::Fetched { has_branch: false }]);
    assert_eq!(actions, vec![SyncAction::Fetch(0), SyncAction::StageAll]);
}

#[test]
fn merge_conflict_is_fatal() {
    let (actions, state) = run(
        2,
        &[
            SyncEvent::Fetched { has_branch: true },
            SyncEvent::Merged { conflicts: true, files_changed: 5 },
            SyncEvent::Committed,
        ],
    );
    assert_eq!(
        actions,
        vec![
            SyncAction::Fetch(0),
            SyncAction::Merge(0),
            SyncAction::Abort(Error::MergeConflict, Some(0)),
            SyncAction::Abort(Error::MergeConflict, Some(0)),
        ]
    );
    assert!(state.is_done());
    assert_eq!(state.outcome(), Some(Err(Error::MergeConflict)));
    assert_eq!(state.failed_remote(), Some(0));
}

#[test]
fn failed_push_stops_without_undoing_earlier_pushes() {
    let (actions, state) = run(
        2,
        &[
            SyncEvent::Fetched { has_branch: false },
            SyncEvent::Fetched { has_branch: false },
            SyncEvent::Staged { files_changed: 0 },
            SyncEvent::CheckedOut,
            SyncEvent::Pushed,
            SyncEvent::Failed,
        ],
    );
    assert_eq!(
        actions,
        vec![
            SyncAction::Fetch(0),
            SyncAction::Fetch(1),
            SyncAction::StageAll,
            SyncAction::CheckoutHead,
            SyncAction::Push(0),
            SyncAction::Push(1),
            SyncAction::Abort(Error::Repository, Some(1)),
        ]
    );
    assert_eq!(state.outcome(), Some(Err(Error::Repository)));
    assert_eq!(state.failed_remote(), Some(1));
}

#[test]
fn failed_fetch_stops_before_anything_is_pushed() {
    let (actions, _) = run(2, &[SyncEvent::Fetched { has_branch: false }, SyncEvent::Failed]);
    assert_eq!(
        actions,
        vec![SyncAction::Fetch(0), SyncAction::Fetch(1), SyncAction::Abort(Error::Repository, Some(1))]
    );
}

#[test]
fn event_that_answers_nothing_aborts() {
    let (actions, _) = run(1, &[SyncEvent::Pushed]);
    assert_eq!(actions, vec![SyncAction::Fetch(0), SyncAction::Abort(Error::Repository, Some(0))]);
    let (actions, _) = run(0, &[SyncEvent::Committed]);
    assert_eq!(actions, vec![SyncAction::StageAll, SyncAction::Abort(Error::Repository, None)]);
}

#[test]
fn finished_synchronisation_stays_finished() {
    let (_, state) = run(0, &[SyncEvent::Staged { files_changed: 0 }, SyncEvent::CheckedOut]);
    let again = state.step(SyncEvent::Failed);
    assert_eq!(again.phase, SyncPhase::Finished);
    assert_eq!(again.action(), SyncAction::Finish);
}

#[test]
fn unfinished_synchronisation_has_no_outcome() {
    let state = Synchronizer::start(1);
    assert!(!state.is_done());
    assert_eq!(state.outcome(), None);
    assert_eq!(state.failed_remote(), None);
}

#[test]
fn commit_has_the_head_first_among_its_parents() {
    assert_eq!(commit_parents(Some(1u32), &vec![2, 3]), vec![1, 2, 3]);
    assert_eq!(commit_parents(None, &vec![2u32, 3]), vec![2, 3]);
    assert_eq!(commit_parents(Some(1u32), &vec![]), vec![1]);
    assert_eq!(commit_parents::<u32>(None, &vec![]), Vec::<u32>::new());
}

#[test]
fn commit_messages_carry_the_time() {
    assert_eq!(commit_message("Thu Jan  1 00:00:00 1970"), "Mona: Thu Jan  1 00:00:00 1970");
    assert_eq!(
        merge_commit_message("origin", "Thu Jan  1 00:00:00 1970"),
        "Mona Sync from origin: Thu Jan  1 00:00:00 1970"
    );
    assert_eq!(setup_commit_message(), "Setup meta files");
    assert_eq!(branch_name(), "master");
    assert_eq!(push_refspec(), "refs/heads/master:refs/heads/master");
}
