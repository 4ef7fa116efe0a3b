//! The decisions of a synchronisation with the configured remotes.
//!
//! The version-control engine fetches, merges, commits and pushes. This module
//! decides, after each of those steps, which step comes next: the caller
//! performs the action it is handed and reports what happened as an event.
//! Every remote is pulled before any remote is pushed.

use vstd::prelude::*;
use vstd::string::*;
use crate::error::Error;

verus! {

/// Where a synchronisation stands. A remote is named by its position in the
/// list of remotes.
#[derive(Clone, Copy, PartialEq, Eq, Debug, Structural)]
pub enum SyncPhase {
    /// The fetch from this remote is under way.
    Fetching(usize),
    /// The merge of what was fetched from this remote is under way.
    Merging(usize),
    /// The commit that records the merge from this remote is under way.
    CommittingMerge(usize),
    /// All remotes are pulled; the changed paths are being staged.
    Staging,
    /// The local commit is under way.
    Committing,
    /// The working tree is being brought to the head commit.
    CheckingOut,
    /// The push to this remote is under way.
    Pushing(usize),
    /// Every remote has been pulled and pushed.
    Finished,
    /// The synchronisation stopped with this failure; where the step that
    /// failed was one for a remote, with that remote.
    Aborted(Error, Option<usize>),
}

/// What the caller reports after it has performed an action.
#[derive(Clone, Copy, PartialEq, Eq, Debug, Structural)]
pub enum SyncEvent {
    /// The fetch succeeded; `has_branch` tells whether the remote has history to merge.
    Fetched { has_branch: bool },
    /// The merge ran; `files_changed` counts the working-tree files it changed.
    Merged { conflicts: bool, files_changed: usize },
    /// The commit that was asked for exists.
    Committed,
    /// Staging ran; `files_changed` counts the paths it added.
    Staged { files_changed: usize },
    /// The working tree is at the head commit.
    CheckedOut,
    /// The push succeeded.
    Pushed,
    /// The action failed.
    Failed,
}

/// What the caller is to do next.
#[derive(Clone, Copy, PartialEq, Eq, Debug, Structural)]
pub enum SyncAction {
    /// Fetch the branch from this remote.
    Fetch(usize),
    /// Merge what was fetched from this remote into the working tree.
    Merge(usize),
    /// Commit the merge, with this remote's commit as an additional parent.
    CommitMerge(usize),
    /// Stage every changed path of the working tree.
    StageAll,
    /// Create the local commit.
    Commit,
    /// Bring the working tree to the head commit.
    CheckoutHead,
    /// Push the branch to this remote.
    Push(usize),
    /// Nothing is left to do.
    Finish,
    /// Stop and report this failure, and the remote whose step failed where
    /// it was one for a remote.
    Abort(Error, Option<usize>),
}

/// A synchronisation in progress over `remotes` remotes.
#[derive(Clone, Copy, PartialEq, Eq, Debug, Structural)]
pub struct Synchronizer {
    pub remotes: usize,
    pub phase: SyncPhase,
}

/// The phase in which remote `j` is pulled, or staging when no remote is left.
pub open spec fn pull_from(remotes: usize, j: int) -> SyncPhase {
    if j < remotes {
        SyncPhase::Fetching(j as usize)
    } else {
        SyncPhase::Staging
    }
}

/// The phase in which remote `j` is pushed, or the end when no remote is left.
pub open spec fn push_from(remotes: usize, j: int) -> SyncPhase {
    if j < remotes {
        SyncPhase::Pushing(j as usize)
    } else {
        SyncPhase::Finished
    }
}

/// The action that a phase waits for.
pub open spec fn pending(phase: SyncPhase) -> SyncAction {
    match phase {
        SyncPhase::Fetching(i) => SyncAction::Fetch(i),
        SyncPhase::Merging(i) => SyncAction::Merge(i),
        SyncPhase::CommittingMerge(i) => SyncAction::CommitMerge(i),
        SyncPhase::Staging => SyncAction::StageAll,
        SyncPhase::Committing => SyncAction::Commit,
        SyncPhase::CheckingOut => SyncAction::CheckoutHead,
        SyncPhase::Pushing(i) => SyncAction::Push(i),
        SyncPhase::Finished => SyncAction::Finish,
        SyncPhase::Aborted(e, at) => SyncAction::Abort(e, at),
    }
}

/// The remote that a phase works on, where it works on one.
pub open spec fn remote_of(phase: SyncPhase) -> Option<usize> {
    match phase {
        SyncPhase::Fetching(i) | SyncPhase::Merging(i) | SyncPhase::CommittingMerge(i) | SyncPhase::Pushing(
            i,
        ) => Some(i),
        _ => None,
    }
}

/// The phase that follows `phase` when `event` is reported.
///
/// A merge with conflicts aborts. A reported failure, or an event that does not
/// answer the pending action, aborts with a repository failure. An abort names
/// the remote whose step failed. What was done before it stays done: nothing
/// is rolled back. The two final phases stay as they are.
pub open spec fn next_phase(remotes: usize, phase: SyncPhase, event: SyncEvent) -> SyncPhase {
    match (phase, event) {
        (SyncPhase::Finished, _) => SyncPhase::Finished,
        (SyncPhase::Aborted(e, at), _) => SyncPhase::Aborted(e, at),
        (SyncPhase::Fetching(i), SyncEvent::Fetched { has_branch }) => if has_branch {
            SyncPhase::Merging(i)
        } else {
            pull_from(remotes, i + 1)
        },
        (SyncPhase::Merging(i), SyncEvent::Merged { conflicts, files_changed }) => if conflicts {
            SyncPhase::Aborted(Error::MergeConflict, Some(i))
        } else if files_changed > 0 {
            SyncPhase::CommittingMerge(i)
        } else {
            pull_from(remotes, i + 1)
        },
        (SyncPhase::CommittingMerge(i), SyncEvent::Committed) => pull_from(remotes, i + 1),
        (SyncPhase::Staging, SyncEvent::Staged { files_changed }) => if files_changed > 0 {
            SyncPhase::Committing
        } else {
            SyncPhase::CheckingOut
        },
        (SyncPhase::Committing, SyncEvent::Committed) => SyncPhase::CheckingOut,
        (SyncPhase::CheckingOut, SyncEvent::CheckedOut) => push_from(remotes, 0),
        (SyncPhase::Pushing(i), SyncEvent::Pushed) => push_from(remotes, i + 1),
        _ => SyncPhase::Aborted(Error::Repository, remote_of(phase)),
    }
}

impl Synchronizer {
    /// The remote that an indexed phase names is one of the remotes.
    pub open spec fn wf(self) -> bool {
        match self.phase {
            SyncPhase::Fetching(i) | SyncPhase::Merging(i) | SyncPhase::CommittingMerge(i) | SyncPhase::Pushing(i) =>
                i < self.remotes,
            _ => true,
        }
    }

    /// The state before anything was done.
    pub open spec fn spec_start(remotes: usize) -> Synchronizer {
        Synchronizer { remotes, phase: pull_from(remotes, 0) }
    }

    /// The state after `event`.
    pub open spec fn spec_step(self, event: SyncEvent) -> Synchronizer {
        Synchronizer { remotes: self.remotes, phase: next_phase(self.remotes, self.phase, event) }
    }

    /// The action that this state waits for.
    pub open spec fn spec_action(self) -> SyncAction {
        pending(self.phase)
    }

    /// Begins a synchronisation over `remotes` remotes. The first action is
    /// `action()` of the result: the fetch from the first remote, or staging when
    /// there is no remote.
    pub fn start(remotes: usize) -> (s: Synchronizer)
        ensures
            s == Synchronizer::spec_start(remotes),
            s.wf(),
    {
        Synchronizer { remotes, phase: Synchronizer::pull_phase(remotes, 0) }
    }

    fn pull_phase(remotes: usize, j: usize) -> (p: SyncPhase)
        ensures
            p == pull_from(remotes, j as int),
    {
        if j < remotes {
            SyncPhase::Fetching(j)
        } else {
            SyncPhase::Staging
        }
    }

    fn push_phase(remotes: usize, j: usize) -> (p: SyncPhase)
        ensures
            p == push_from(remotes, j as int),
    {
        if j < remotes {
            SyncPhase::Pushing(j)
        } else {
            SyncPhase::Finished
        }
    }

    /// The action to perform now.
    pub fn action(&self) -> (a: SyncAction)
        ensures
            a == self.spec_action(),
    {
        match self.phase {
            SyncPhase::Fetching(i) => SyncAction::Fetch(i),
            SyncPhase::Merging(i) => SyncAction::Merge(i),
            SyncPhase::CommittingMerge(i) => SyncAction::CommitMerge(i),
            SyncPhase::Staging => SyncAction::StageAll,
            SyncPhase::Committing => SyncAction::Commit,
            SyncPhase::CheckingOut => SyncAction::CheckoutHead,
            SyncPhase::Pushing(i) => SyncAction::Push(i),
            SyncPhase::Finished => SyncAction::Finish,
            SyncPhase::Aborted(e, at) => SyncAction::Abort(e, at),
        }
    }

    /// Takes the report of the action that was pending and returns the state
    /// that follows, whose `action()` is the next thing to do.
    pub fn step(self, event: SyncEvent) -> (s: Synchronizer)
        requires
            self.wf(),
        ensures
            s == self.spec_step(event),
            s.wf(),
    {
        let n = self.remotes;
        let phase = match self.phase {
            SyncPhase::Finished => SyncPhase::Finished,
            SyncPhase::Aborted(e, at) => SyncPhase::Aborted(e, at),
            SyncPhase::Fetching(i) => match event {
                SyncEvent::Fetched { has_branch } => if has_branch {
                    SyncPhase::Merging(i)
                } else {
                    Synchronizer::pull_phase(n, i + 1)
                },
                _ => SyncPhase::Aborted(Error::Repository, Some(i)),
            },
            SyncPhase::Merging(i) => match event {
                SyncEvent::Merged { conflicts, files_changed } => if conflicts {
                    SyncPhase::Aborted(Error::MergeConflict, Some(i))
                } else if files_changed > 0 {
                    SyncPhase::CommittingMerge(i)
                } else {
                    Synchronizer::pull_phase(n, i + 1)
                },
                _ => SyncPhase::Aborted(Error::Repository, Some(i)),
            },
            SyncPhase::CommittingMerge(i) => match event {
                SyncEvent::Committed => Synchronizer::pull_phase(n, i + 1),
                _ => SyncPhase::Aborted(Error::Repository, Some(i)),
            },
            SyncPhase::Staging => match event {
                SyncEvent::Staged { files_changed } => if files_changed > 0 {
                    SyncPhase::Committing
                } else {
                    SyncPhase::CheckingOut
                },
                _ => SyncPhase::Aborted(Error::Repository, None),
            },
            SyncPhase::Committing => match event {
                SyncEvent::Committed => SyncPhase::CheckingOut,
                _ => SyncPhase::Aborted(Error::Repository, None),
            },
            SyncPhase::CheckingOut => match event {
                SyncEvent::CheckedOut => Synchronizer::push_phase(n, 0),
                _ => SyncPhase::Aborted(Error::Repository, None),
            },
            SyncPhase::Pushing(i) => match event {
                SyncEvent::Pushed => Synchronizer::push_phase(n, i + 1),
                _ => SyncPhase::Aborted(Error::Repository, Some(i)),
            },
        };
        Synchronizer { remotes: n, phase }
    }

    /// Whether nothing is left to do, with or without success.
    pub fn is_done(&self) -> (b: bool)
        ensures
            b == (self.phase is Finished || self.phase is Aborted),
    {
        match self.phase {
            SyncPhase::Finished => true,
            SyncPhase::Aborted(_, _) => true,
            _ => false,
        }
    }

    /// The outcome of a synchronisation that is done.
    pub fn outcome(&self) -> (r: Option<Result<(), Error>>)
        ensures
            r == (match self.phase {
                SyncPhase::Finished => Some(Ok::<(), Error>(())),
                SyncPhase::Aborted(e, _) => Some(Err::<(), Error>(e)),
                _ => None::<Result<(), Error>>,
            }),
    {
        match self.phase {
            SyncPhase::Finished => Some(Ok(())),
            SyncPhase::Aborted(e, _) => Some(Err(e)),
            _ => None,
        }
    }

    /// The remote whose step failed, where the synchronisation stopped at a
    /// step for a remote.
    pub fn failed_remote(&self) -> (r: Option<usize>)
        ensures
            r == (match self.phase {
                SyncPhase::Aborted(_, at) => at,
                _ => None::<usize>,
            }),
    {
        match self.phase {
            SyncPhase::Aborted(_, at) => at,
            _ => None,
        }
    }
}

/// The parents of a commit: the head commit, where there is one, then the
/// additional parents in their order. The first commit of a repository has no
/// head before it.
pub fn commit_parents<T: Copy>(head: Option<T>, extra: &Vec<T>) -> (parents: Vec<T>)
    ensures
        parents@ == (match head {
            Some(h) => seq![h],
            None => Seq::<T>::empty(),
        }) + extra@,
{
    let mut parents: Vec<T> = Vec::new();
    match head {
        Some(h) => {
            parents.push(h);
        },
        None => {},
    }
    let ghost first = parents@;
    let mut i: usize = 0;
    while i < extra.len()
        invariant
            0 <= i <= extra.len(),
            parents@ == first + extra@.take(i as int),
        decreases extra.len() - i,
    {
        parents.push(extra[i]);
        assert(first + extra@.take(i + 1) =~= (first + extra@.take(i as int)).push(extra@[i as int]));
        i += 1;
    }
    assert(extra@.take(extra@.len() as int) =~= extra@);
    parents
}

/// The branch that is synchronised.
pub fn branch_name() -> (s: String)
    ensures
        s@ == "master"@,
{
    "master".to_owned()
}

/// The refspec with which the branch is pushed.
pub fn push_refspec() -> (s: String)
    ensures
        s@ == "refs/heads/master:refs/heads/master"@,
{
    "refs/heads/master:refs/heads/master".to_owned()
}

/// The message of the commit that records the first files of a store.
pub fn setup_commit_message() -> (s: String)
    ensures
        s@ == "Setup meta files"@,
{
    "Setup meta files".to_owned()
}

/// The message of the local commit of a synchronisation, made at the time
/// `when`.
pub fn commit_message(when: &str) -> (s: String)
    ensures
        s@ == "Mona: "@ + when@,
{
    let mut s = "Mona: ".to_owned();
    s.append(when);
    s
}

/// The message of the commit that records the merge from a remote, made at
/// the time `when`.
pub fn merge_commit_message(remote: &str, when: &str) -> (s: String)
    ensures
        s@ == "Mona Sync from "@ + remote@ + ": "@ + when@,
{
    let mut s = "Mona Sync from ".to_owned();
    s.append(remote);
    s.append(": ");
    s.append(when);
    s
}

/// The state reached from `s` after the events of `events`, in order.
pub open spec fn state_after(s: Synchronizer, events: Seq<SyncEvent>) -> Synchronizer
    decreases events.len(),
{
    if events.len() == 0 {
        s
    } else {
        state_after(s, events.drop_last()).spec_step(events.last())
    }
}

/// The actions handed out along `events`: the one pending in `s`, then the one
/// that follows each event.
pub open spec fn actions_along(s: Synchronizer, events: Seq<SyncEvent>) -> Seq<SyncAction> {
    Seq::new(events.len() + 1, |k: int| state_after(s, events.take(k)).spec_action())
}

/// Whether the action belongs to the pulling of remotes.
pub open spec fn is_pull(a: SyncAction) -> bool {
    a is Fetch || a is Merge || a is CommitMerge
}

/// How far a phase is along the fixed order: pull, record locally, push, end.
pub open spec fn stage_rank(phase: SyncPhase) -> int {
    match phase {
        SyncPhase::Fetching(_) | SyncPhase::Merging(_) | SyncPhase::CommittingMerge(_) => 0,
        SyncPhase::Staging | SyncPhase::Committing | SyncPhase::CheckingOut => 1,
        SyncPhase::Pushing(_) => 2,
        SyncPhase::Finished | SyncPhase::Aborted(_, _) => 3,
    }
}

/// The number of remotes, counted from the first, whose fetch has been handed
/// out by the time a phase is reached.
pub open spec fn fetched(remotes: usize, phase: SyncPhase) -> int {
    match phase {
        SyncPhase::Fetching(i) | SyncPhase::Merging(i) | SyncPhase::CommittingMerge(i) => i + 1,
        SyncPhase::Aborted(_, _) => 0,
        _ => remotes as int,
    }
}

/// The number of remotes, counted from the first, whose push has been handed
/// out by the time a phase is reached.
pub open spec fn pushed(remotes: usize, phase: SyncPhase) -> int {
    match phase {
        SyncPhase::Pushing(i) => i + 1,
        SyncPhase::Finished => remotes as int,
        _ => 0,
    }
}

proof fn lemma_step_keeps_order(s: Synchronizer, event: SyncEvent)
    requires
        s.wf(),
    ensures
        s.spec_step(event).wf(),
        stage_rank(s.phase) <= stage_rank(s.spec_step(event).phase),
        s.spec_step(event).remotes == s.remotes,
{
}

proof fn lemma_state_after_wf(s: Synchronizer, events: Seq<SyncEvent>)
    requires
        s.wf(),
    ensures
        state_after(s, events).wf(),
        state_after(s, events).remotes == s.remotes,
        stage_rank(s.phase) <= stage_rank(state_after(s, events).phase),
    decreases events.len(),
{
    if events.len() > 0 {
        lemma_state_after_wf(s, events.drop_last());
        lemma_step_keeps_order(state_after(s, events.drop_last()), events.last());
    }
}

proof fn lemma_state_after_split(s: Synchronizer, events: Seq<SyncEvent>, k: int)
    requires
        0 <= k <= events.len(),
    ensures
        state_after(s, events) == state_after(state_after(s, events.take(k)), events.skip(k)),
    decreases events.len(),
{
    if k == events.len() {
        assert(events.take(k) =~= events);
        assert(events.skip(k) =~= Seq::<SyncEvent>::empty());
    } else {
        lemma_state_after_split(s, events.drop_last(), k);
        assert(events.drop_last().take(k) =~= events.take(k));
        assert(events.drop_last().skip(k) =~= events.skip(k).drop_last());
        assert(events.skip(k).last() == events.last());
    }
}

/// Every pull comes before every push: whatever the caller reports, once a
/// push has been handed out, no fetch, merge or merge commit is handed out
/// after it, nor staging, nor the local commit.
pub proof fn lemma_pulls_before_pushes(remotes: usize, events: Seq<SyncEvent>, a: int, b: int)
    requires
        0 <= a <= b <= events.len(),
        actions_along(Synchronizer::spec_start(remotes), events)[a] is Push,
    ensures
        !is_pull(actions_along(Synchronizer::spec_start(remotes), events)[b]),
        !(actions_along(Synchronizer::spec_start(remotes), events)[b] is StageAll),
        !(actions_along(Synchronizer::spec_start(remotes), events)[b] is Commit),
{
    let s0 = Synchronizer::spec_start(remotes);
    let sa = state_after(s0, events.take(a));
    let sb = state_after(s0, events.take(b));
    lemma_state_after_wf(s0, events.take(a));
    lemma_state_after_split(s0, events.take(b), a);
    assert(events.take(b).take(a) =~= events.take(a));
    lemma_state_after_wf(sa, events.take(b).skip(a));
}

proof fn lemma_fetched_so_far(remotes: usize, events: Seq<SyncEvent>, r: int) -> (a: int)
    requires
        0 <= r < fetched(remotes, state_after(Synchronizer::spec_start(remotes), events).phase),
    ensures
        0 <= a <= events.len(),
        actions_along(Synchronizer::spec_start(remotes), events)[a] == SyncAction::Fetch(r as usize),
    decreases events.len(),
{
    let s0 = Synchronizer::spec_start(remotes);
    if events.len() == 0 {
        assert(events.take(0) =~= events);
        0
    } else {
        let prev = state_after(s0, events.drop_last());
        lemma_state_after_wf(s0, events.drop_last());
        if r < fetched(remotes, prev.phase) {
            let a = lemma_fetched_so_far(remotes, events.drop_last(), r);
            assert(events.drop_last().take(a) =~= events.take(a));
            a
        } else {
            assert(events.take(events.len() as int) =~= events);
            events.len() as int
        }
    }
}

/// A push is handed out only after the fetch from every remote: for each
/// remote `r`, the fetch from `r` stands at an earlier place `a` of the actions
/// than any push.
pub proof fn lemma_push_after_all_fetches(remotes: usize, events: Seq<SyncEvent>, b: int, r: int) -> (a: int)
    requires
        0 <= b <= events.len(),
        actions_along(Synchronizer::spec_start(remotes), events)[b] is Push,
        0 <= r < remotes,
    ensures
        0 <= a < b,
        actions_along(Synchronizer::spec_start(remotes), events)[a] == SyncAction::Fetch(r as usize),
{
    let a = lemma_fetched_so_far(remotes, events.take(b), r);
    assert(events.take(b).take(a) =~= events.take(a));
    a
}

proof fn lemma_pushed_so_far(remotes: usize, events: Seq<SyncEvent>, r: int) -> (a: int)
    requires
        0 <= r < pushed(remotes, state_after(Synchronizer::spec_start(remotes), events).phase),
    ensures
        0 <= a <= events.len(),
        actions_along(Synchronizer::spec_start(remotes), events)[a] == SyncAction::Push(r as usize),
    decreases events.len(),
{
    let s0 = Synchronizer::spec_start(remotes);
    if events.len() == 0 {
        assert(events.take(0) =~= events);
        0
    } else {
        let prev = state_after(s0, events.drop_last());
        lemma_state_after_wf(s0, events.drop_last());
        if r < pushed(remotes, prev.phase) {
            let a = lemma_pushed_so_far(remotes, events.drop_last(), r);
            assert(events.drop_last().take(a) =~= events.take(a));
            a
        } else {
            assert(events.take(events.len() as int) =~= events);
            events.len() as int
        }
    }
}

/// The synchronisation finishes only after the push to every remote: where
/// the end is handed out, the push to each remote `r` stands at an earlier
/// place `a` of the actions.
pub proof fn lemma_finish_after_all_pushes(remotes: usize, events: Seq<SyncEvent>, b: int, r: int) -> (a: int)
    requires
        0 <= b <= events.len(),
        actions_along(Synchronizer::spec_start(remotes), events)[b] is Finish,
        0 <= r < remotes,
    ensures
        0 <= a < b,
        actions_along(Synchronizer::spec_start(remotes), events)[a] == SyncAction::Push(r as usize),
{
    let a = lemma_pushed_so_far(remotes, events.take(b), r);
    assert(events.take(b).take(a) =~= events.take(a));
    a
}

} // verus!
