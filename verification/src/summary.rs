//! What has become of the tasks of a workflow.

use crate::dag::{Dag, DagView};
use crate::lists::{lemma_filter_members, lemma_filter_step};
use crate::state::{TaskStates, TaskStatesView, TaskStatus, TaskStatusView};
use crate::text::{texts, Text};
use vstd::prelude::*;

verus! {

/// A task that failed, and how.
#[derive(Debug, Clone)]
pub struct FailedTask {
    pub id: String,
    pub error: String,
}

/// The content of a [`FailedTask`].
pub struct FailedTaskView {
    pub id: Text,
    pub error: Text,
}

impl View for FailedTask {
    type V = FailedTaskView;

    open spec fn view(&self) -> FailedTaskView {
        FailedTaskView { id: self.id@, error: self.error@ }
    }
}

/// The outcome of a run.
#[derive(Debug, Clone)]
pub struct WorkflowSummary {
    pub succeeded: Vec<String>,
    pub failed: Vec<FailedTask>,
    pub skipped: Vec<String>,
    pub duration_nanos: u128,
}

/// The content of a [`WorkflowSummary`].
#[verifier::ext_equal]
pub struct WorkflowSummaryView {
    pub succeeded: Seq<Text>,
    pub failed: Seq<FailedTaskView>,
    pub skipped: Seq<Text>,
    pub duration_nanos: u128,
}

impl View for WorkflowSummary {
    type V = WorkflowSummaryView;

    open spec fn view(&self) -> WorkflowSummaryView {
        WorkflowSummaryView {
            succeeded: texts(self.succeeded@),
            failed: failed_views(self.failed@),
            skipped: texts(self.skipped@),
            duration_nanos: self.duration_nanos,
        }
    }
}

/// The contents of a sequence of failed tasks.
pub open spec fn failed_views(failed: Seq<FailedTask>) -> Seq<FailedTaskView> {
    failed.map_values(|task: FailedTask| task@)
}

/// The tasks that have completed.
pub open spec fn succeeded_ids(states: TaskStatesView) -> Seq<Text> {
    states.ids_with(|status: TaskStatusView| status is Completed)
}

/// The tasks that have failed.
pub open spec fn failed_ids(states: TaskStatesView) -> Seq<Text> {
    states.ids_with(|status: TaskStatusView| status is Failed)
}

/// The tasks that were left out.
pub open spec fn skipped_ids(states: TaskStatesView) -> Seq<Text> {
    states.ids_with(
        |status: TaskStatusView| status is Skipped || status is SkippedDueToDependencyFailure,
    )
}

/// The summary of statuses: what has completed, what has failed and how, and what
/// was left out, each in the order of the ids.
pub open spec fn summary(states: TaskStatesView, duration_nanos: u128) -> WorkflowSummaryView {
    WorkflowSummaryView {
        succeeded: succeeded_ids(states),
        failed: failed_ids(states).map_values(
            |id: Text| FailedTaskView { id, error: states.status[id]->error },
        ),
        skipped: skipped_ids(states),
        duration_nanos,
    }
}

/// The summary of statuses names as succeeded what has completed, as failed what has failed,
/// with the text of the failure, and as skipped what was left out, each once, and nothing
/// else. It has the duration that it is given.
pub proof fn law_summary(states: TaskStatesView, duration_nanos: u128, id: Text, error: Text)
    requires
        states.wf(),
    ensures
        ({
            let s = summary(states, duration_nanos);
            &&& s.duration_nanos == duration_nanos
            &&& s.succeeded.contains(id) <==> states.get(id) == Some(TaskStatusView::Completed)
            &&& s.failed.contains(FailedTaskView { id, error }) <==> states.get(id) == Some(
                TaskStatusView::Failed { error },
            )
            &&& s.skipped.contains(id) <==> states.get(id) == Some(TaskStatusView::Skipped)
                || states.get(id) == Some(TaskStatusView::SkippedDueToDependencyFailure)
            &&& s.succeeded.no_duplicates()
            &&& s.skipped.no_duplicates()
            &&& forall|i: int, j: int|
                0 <= i < j < s.failed.len() ==> (#[trigger] s.failed[i]).id != (
                #[trigger] s.failed[j]).id
        }),
{
    let s = summary(states, duration_nanos);
    lemma_ids_with(states, |status: TaskStatusView| status is Completed);
    lemma_ids_with(states, |status: TaskStatusView| status is Failed);
    lemma_ids_with(
        states,
        |status: TaskStatusView| status is Skipped || status is SkippedDueToDependencyFailure,
    );
    let failed = failed_ids(states);
    assert forall|k: int| 0 <= k < s.failed.len() implies #[trigger] s.failed[k] == (
    FailedTaskView { id: failed[k], error: states.status[failed[k]]->error }) by {}
    if s.failed.contains(FailedTaskView { id, error }) {
        let k = choose|k: int|
            0 <= k < s.failed.len() && s.failed[k] == (FailedTaskView { id, error });
        assert(failed.contains(failed[k]));
    }
    if states.get(id) == Some(TaskStatusView::Failed { error }) {
        assert(failed.contains(id));
        let k = choose|k: int| 0 <= k < failed.len() && failed[k] == id;
        assert(s.failed[k] == (FailedTaskView { id, error }));
    }
}

/// Which ids are listed by status.
pub proof fn lemma_ids_with(states: TaskStatesView, wanted: spec_fn(TaskStatusView) -> bool)
    requires
        states.wf(),
    ensures
        states.ids_with(wanted).no_duplicates(),
        forall|id: Text| #[trigger]
            states.ids_with(wanted).contains(id) <==> states.status.contains_key(id) && wanted(
                states.status[id],
            ),
{
    let keep = |id: Text| states.status.contains_key(id) && wanted(states.status[id]);
    lemma_filter_members(states.ids, keep);
    assert forall|id: Text| #[trigger]
        states.ids_with(wanted).contains(id) <==> states.status.contains_key(id) && wanted(
            states.status[id],
        ) by {
        assert(states.ids.contains(id) <==> states.status.contains_key(id));
    }
}

/// Whether no task of the graph will be worked on again.
pub open spec fn all_done(dag: DagView, states: TaskStatesView) -> bool {
    forall|i: int|
        0 <= i < dag.nodes.len() ==> states.status.contains_key(#[trigger] dag.nodes[i])
            && states.status[dag.nodes[i]].terminal()
}

/// Decides whether no task of the graph will be worked on again.
pub fn is_all_done(dag: &Dag, states: &TaskStates) -> (r: bool)
    ensures
        r == all_done(dag@, states@),
{
    let ids = dag.task_ids();
    let mut i: usize = 0;
    while i < ids.len()
        invariant
            i <= ids.len(),
            dag@.nodes == texts(ids@),
            forall|j: int|
                0 <= j < i ==> states@.status.contains_key(#[trigger] dag@.nodes[j])
                    && states@.status[dag@.nodes[j]].terminal(),
        decreases ids.len() - i,
    {
        let terminal = match states.get_status(ids[i].as_str()) {
            Some(status) => status.is_terminal(),
            None => false,
        };
        assert(dag@.nodes[i as int] == ids@[i as int]@);
        if !terminal {
            return false;
        }
        i = i + 1;
    }
    true
}

/// Sums up what has become of the tasks.
pub fn build_summary(states: &TaskStates, duration_nanos: u128) -> (r: WorkflowSummary)
    ensures
        r@ == summary(states@, duration_nanos),
{
    let ids = states.ids();
    let ghost all = states@.ids;
    let ghost status = states@.status;
    let ghost completed = |id: Text| status.contains_key(id) && status[id] is Completed;
    let ghost broken = |id: Text| status.contains_key(id) && status[id] is Failed;
    let ghost omitted = |id: Text|
        status.contains_key(id) && (status[id] is Skipped
            || status[id] is SkippedDueToDependencyFailure);
    let ghost entry = |id: Text| FailedTaskView { id, error: status[id]->error };
    let mut succeeded: Vec<String> = Vec::new();
    let mut failed: Vec<FailedTask> = Vec::new();
    let mut skipped: Vec<String> = Vec::new();
    let mut i: usize = 0;
    proof {
        reveal(Seq::filter);
        assert(texts(succeeded@) =~= all.take(0).filter(completed));
        assert(failed_views(failed@) =~= all.take(0).filter(broken).map_values(entry));
        assert(texts(skipped@) =~= all.take(0).filter(omitted));
    }
    while i < ids.len()
        invariant
            i <= ids.len(),
            all == texts(ids@),
            status == states@.status,
            completed == (|id: Text| status.contains_key(id) && status[id] is Completed),
            broken == (|id: Text| status.contains_key(id) && status[id] is Failed),
            omitted == (|id: Text|
                status.contains_key(id) && (status[id] is Skipped
                    || status[id] is SkippedDueToDependencyFailure)),
            entry == (|id: Text| FailedTaskView { id, error: status[id]->error }),
            texts(succeeded@) == all.take(i as int).filter(completed),
            failed_views(failed@) == all.take(i as int).filter(broken).map_values(entry),
            texts(skipped@) == all.take(i as int).filter(omitted),
        decreases ids.len() - i,
    {
        let id = ids[i].clone();
        let ghost before = (texts(succeeded@), failed_views(failed@), texts(skipped@));
        proof {
            assert(id@ == all[i as int]);
            lemma_filter_step(all, i as int, completed);
            lemma_filter_step(all, i as int, broken);
            lemma_filter_step(all, i as int, omitted);
        }
        match states.get_status(id.as_str()) {
            Some(TaskStatus::Completed) => {
                succeeded.push(id);
                assert(texts(succeeded@) =~= before.0.push(id@));
            },
            Some(TaskStatus::Failed { error }) => {
                failed.push(FailedTask { id, error: error.clone() });
                proof {
                    assert(failed_views(failed@) =~= before.1.push(entry(id@)));
                    assert(all.take(i + 1).filter(broken).map_values(entry) =~= before.1.push(
                        entry(id@),
                    ));
                }
            },
            Some(TaskStatus::Skipped) | Some(TaskStatus::SkippedDueToDependencyFailure) => {
                skipped.push(id);
                assert(texts(skipped@) =~= before.2.push(id@));
            },
            _ => {},
        }
        i = i + 1;
    }
    let r = WorkflowSummary { succeeded, failed, skipped, duration_nanos };
    proof {
        assert(all.take(i as int) =~= all);
        assert(succeeded_ids(states@) == all.filter(completed)) by {
            let other = |id: Text|
                states@.status.contains_key(id) && (|s: TaskStatusView| s is Completed)(
                    states@.status[id],
                );
            assert(other =~= completed);
        }
        assert(failed_ids(states@) == all.filter(broken)) by {
            let other = |id: Text|
                states@.status.contains_key(id) && (|s: TaskStatusView| s is Failed)(
                    states@.status[id],
                );
            assert(other =~= broken);
        }
        assert(skipped_ids(states@) == all.filter(omitted)) by {
            let other = |id: Text|
                states@.status.contains_key(id) && (|s: TaskStatusView|
                    s is Skipped || s is SkippedDueToDependencyFailure)(states@.status[id]);
            assert(other =~= omitted);
        }
        assert(r@ =~= summary(states@, duration_nanos));
    }
    r
}

} // verus!
