//! Rolling a commit back: what each of its changes asks of the filesystem,
//! and the report of how the attempts went.

use crate::models::{clone_bytes, Change, ChangeType, ChangeView, Commit};
use crate::storage::{Storage, StorageView};
use vstd::prelude::*;

verus! {

/// What restoring the state before a change asks of the filesystem. Paths
/// are as the change holds them, relative to the session's root unless the
/// change recorded an absolute one.
#[derive(Debug, PartialEq, Eq)]
pub enum RollbackAction {
    /// Remove the file at the path, if it is there.
    RemoveFile { path: String },
    /// Overwrite the file at the path with the content.
    RestoreFile { path: String, content: Vec<u8> },
    /// Create the directories above the path, then write the file.
    RecreateFile { path: String, content: Vec<u8> },
    /// Rename the file at `from` to `to`, if `from` is there.
    RenameBack { from: String, to: String },
    /// Nothing to do: what came before the change was never captured.
    Nothing,
}

/// What a [`RollbackAction`] is in contracts.
pub enum RollbackActionView {
    RemoveFile { path: Seq<char> },
    RestoreFile { path: Seq<char>, content: Seq<u8> },
    RecreateFile { path: Seq<char>, content: Seq<u8> },
    RenameBack { from: Seq<char>, to: Seq<char> },
    Nothing,
}

impl View for RollbackAction {
    type V = RollbackActionView;

    open spec fn view(&self) -> RollbackActionView {
        match self {
            RollbackAction::RemoveFile { path } => RollbackActionView::RemoveFile { path: path@ },
            RollbackAction::RestoreFile { path, content } => RollbackActionView::RestoreFile {
                path: path@,
                content: content@,
            },
            RollbackAction::RecreateFile { path, content } => RollbackActionView::RecreateFile {
                path: path@,
                content: content@,
            },
            RollbackAction::RenameBack { from, to } => RollbackActionView::RenameBack {
                from: from@,
                to: to@,
            },
            RollbackAction::Nothing => RollbackActionView::Nothing,
        }
    }
}

/// The action that undoes a change: a created file is removed, a modified
/// file gets its old content back, a deleted file is written again, a
/// renamed file is renamed back. Without the old content, or the old path,
/// there is nothing to do.
pub open spec fn action_for(change: ChangeView) -> RollbackActionView {
    match change.change_type {
        ChangeType::Create => RollbackActionView::RemoveFile { path: change.path },
        ChangeType::Modify => match change.content_before {
            Some(content) => RollbackActionView::RestoreFile { path: change.path, content },
            None => RollbackActionView::Nothing,
        },
        ChangeType::Delete => match change.content_before {
            Some(content) => RollbackActionView::RecreateFile { path: change.path, content },
            None => RollbackActionView::Nothing,
        },
        ChangeType::Rename => match change.old_path {
            Some(old_path) => RollbackActionView::RenameBack { from: change.path, to: old_path },
            None => RollbackActionView::Nothing,
        },
    }
}

/// What a preview says of a change of a kind.
pub open spec fn preview_text(change_type: ChangeType) -> Seq<char> {
    match change_type {
        ChangeType::Create => "will be removed"@,
        ChangeType::Modify => "will be restored"@,
        ChangeType::Delete => "will be recreated"@,
        ChangeType::Rename => "will be renamed back"@,
    }
}

/// One step of a rollback: the path it concerns, what a preview says of it,
/// and the action.
#[derive(Debug, PartialEq, Eq)]
pub struct RollbackStep {
    pub path: String,
    pub change_type: ChangeType,
    pub action: RollbackAction,
}

/// What a [`RollbackStep`] is in contracts.
pub struct RollbackStepView {
    pub path: Seq<char>,
    pub change_type: ChangeType,
    pub action: RollbackActionView,
}

impl View for RollbackStep {
    type V = RollbackStepView;

    open spec fn view(&self) -> RollbackStepView {
        RollbackStepView { path: self.path@, change_type: self.change_type, action: self.action@ }
    }
}

/// The step that undoes a change.
pub open spec fn step_for(change: ChangeView) -> RollbackStepView {
    RollbackStepView {
        path: change.path,
        change_type: change.change_type,
        action: action_for(change),
    }
}

/// The steps that undo the listed changes, in the order of the list. A
/// change that does not exist gives no step.
pub open spec fn steps_for(store: StorageView, ids: Seq<u128>) -> Seq<RollbackStepView>
    decreases ids.len(),
{
    if ids.len() == 0 {
        Seq::empty()
    } else {
        let before = steps_for(store, ids.drop_last());
        if store.has_change(ids.last()) {
            before.push(step_for(store.change(ids.last())))
        } else {
            before
        }
    }
}

/// The views of a run of steps.
pub open spec fn step_views(steps: Seq<RollbackStep>) -> Seq<RollbackStepView> {
    Seq::new(steps.len(), |i: int| steps[i]@)
}

/// What a preview says of a change of a kind.
pub fn preview_label(change_type: ChangeType) -> (label: &'static str)
    ensures
        label@ == preview_text(change_type),
{
    match change_type {
        ChangeType::Create => "will be removed",
        ChangeType::Modify => "will be restored",
        ChangeType::Delete => "will be recreated",
        ChangeType::Rename => "will be renamed back",
    }
}

/// The action that undoes a change.
pub fn rollback_action(change: &Change) -> (action: RollbackAction)
    ensures
        action@ == action_for(change@),
{
    match change.change_type {
        ChangeType::Create => RollbackAction::RemoveFile { path: change.path.clone() },
        ChangeType::Modify => match &change.content_before {
            Some(content) => {
                assert(content.deep_view() =~= content@);
                RollbackAction::RestoreFile {
                    path: change.path.clone(),
                    content: clone_bytes(content),
                }
            },
            None => RollbackAction::Nothing,
        },
        ChangeType::Delete => match &change.content_before {
            Some(content) => {
                assert(content.deep_view() =~= content@);
                RollbackAction::RecreateFile {
                    path: change.path.clone(),
                    content: clone_bytes(content),
                }
            },
            None => RollbackAction::Nothing,
        },
        ChangeType::Rename => match &change.old_path {
            Some(old_path) => RollbackAction::RenameBack {
                from: change.path.clone(),
                to: old_path.clone(),
            },
            None => RollbackAction::Nothing,
        },
    }
}

/// The steps that roll a commit back, one for each of its changes that the
/// store holds, in the commit's order.
pub fn plan_rollback(storage: &Storage, commit: &Commit) -> (steps: Vec<RollbackStep>)
    requires
        storage@.wf(),
    ensures
        step_views(steps@) == steps_for(storage@, commit@.changes),
{
    let ghost ids = commit@.changes;
    let mut steps: Vec<RollbackStep> = Vec::new();
    let mut m: usize = 0;
    assert(ids.take(0) =~= Seq::empty());
    assert(step_views(steps@) =~= Seq::empty());
    while m < commit.changes.len()
        invariant
            m <= commit.changes.len(),
            ids == commit@.changes,
            storage@.wf(),
            step_views(steps@) == steps_for(storage@, ids.take(m as int)),
        decreases commit.changes.len() - m,
    {
        proof {
            assert(ids.take(m + 1).drop_last() =~= ids.take(m as int));
            assert(ids.take(m + 1).last() == ids[m as int]);
        }
        match storage.get_change(&commit.changes[m]) {
            Ok(change) => {
                let ghost before = step_views(steps@);
                let action = rollback_action(&change);
                steps.push(
                    RollbackStep { path: change.path, change_type: change.change_type, action },
                );
                assert(step_views(steps@) =~= before.push(step_for(change@)));
            },
            Err(_) => {},
        }
        m += 1;
    }
    assert(ids.take(m as int) =~= ids);
    steps
}

/// How the attempt at one step went: the path, and the failure if any.
#[derive(Debug, PartialEq, Eq)]
pub struct StepOutcome {
    pub path: String,
    pub failure: Option<String>,
}

/// How a rollback went: the number of steps that succeeded, and each
/// failure with its path.
#[derive(Debug, PartialEq, Eq)]
pub struct RollbackReport {
    pub succeeded: usize,
    pub failures: Vec<(String, String)>,
}

/// How many of the first `n` outcomes are successes.
pub open spec fn successes(outcomes: Seq<StepOutcome>, n: int) -> nat
    decreases n,
{
    if n <= 0 {
        0
    } else {
        successes(outcomes, n - 1) + if outcomes[n - 1].failure is None {
            1nat
        } else {
            0nat
        }
    }
}

/// The failures among the first `n` outcomes, in order, each with its path.
pub open spec fn failures(outcomes: Seq<StepOutcome>, n: int) -> Seq<(Seq<char>, Seq<char>)>
    decreases n,
{
    if n <= 0 {
        Seq::empty()
    } else {
        match outcomes[n - 1].failure {
            Some(failure) => failures(outcomes, n - 1).push((outcomes[n - 1].path@, failure@)),
            None => failures(outcomes, n - 1),
        }
    }
}

impl RollbackReport {
    /// Sums the outcomes up. A failed step does not stop the count: every
    /// outcome is either a success or a listed failure.
    pub fn summarize(outcomes: &Vec<StepOutcome>) -> (report: RollbackReport)
        ensures
            report.succeeded == successes(outcomes@, outcomes.len() as int),
            report.failures.deep_view() == failures(outcomes@, outcomes.len() as int),
            report.succeeded + report.failures.len() == outcomes.len(),
    {
        let mut succeeded: usize = 0;
        let mut failed: Vec<(String, String)> = Vec::new();
        let mut i: usize = 0;
        assert(failed.deep_view() =~= Seq::empty());
        while i < outcomes.len()
            invariant
                i <= outcomes.len(),
                succeeded == successes(outcomes@, i as int),
                failed.deep_view() == failures(outcomes@, i as int),
                succeeded + failed.len() == i,
            decreases outcomes.len() - i,
        {
            match &outcomes[i].failure {
                Some(failure) => {
                    let ghost before = failed.deep_view();
                    failed.push((outcomes[i].path.clone(), failure.clone()));
                    assert(failed.deep_view() =~= before.push((outcomes[i as int].path@, failure@)));
                },
                None => {
                    succeeded += 1;
                },
            }
            i += 1;
        }
        RollbackReport { succeeded, failures: failed }
    }

    /// Whether every step succeeded.
    pub fn is_complete(&self) -> (complete: bool)
        ensures
            complete == (self.failures.len() == 0),
    {
        self.failures.len() == 0
    }
}

} // verus!
