//! What a run makes of the statuses that it began with.

use crate::dag::ranked;
use crate::lists::{lemma_filter_len, lemma_filter_members};
use crate::model::{handle_ids, transition, PhaseView, RunDataView, RunView};
use crate::protocol::EventView;
use crate::reachable::{
    comes_from, dependencies_completed, inv, is_completed, is_running, lemma_set_all,
    lemma_with_pending, taken_up, unbuilt,
};
use crate::remains::{law_standing, standing};
use crate::skips::{blocks, dependencies_of, law_skips, left_out, left_out_within, with_skips};
use crate::state::{TaskStatesView, TaskStatusView};
use crate::summary::summary;
use crate::task::{task_ids, TaskView};
use crate::text::{first_index, lemma_first_index, Text};
use crate::workflow::{
    build_outcome, declared_edges, law_build_outcome, lemma_declared_edges, WorkflowView,
};
use vstd::prelude::*;

verus! {

/// One step keeps the status of a task that has come to an end.
#[verifier::rlimit(50)]
pub proof fn lemma_terminal_step(run: RunView, event: EventView, now: u128, id: Text)
    requires
        inv(run),
        run.data.states.status.contains_key(id),
        run.data.states.status[id].terminal(),
    ensures
        transition(run, event, now).data.states.get(id) == run.data.states.get(id),
{
    let data = run.data;
    if !run.saving {
        match (run.phase, event) {
            (PhaseView::Build, EventView::Done) => {
                law_build_outcome(data.workflow.tasks);
                lemma_with_pending(data.states, task_ids(data.workflow.tasks));
                let states = data.states.with_pending(task_ids(data.workflow.tasks));
                assert(states.status.contains_key(id));
            },
            (PhaseView::Interrupt, EventView::Interrupted { yes }) => {
                let ids = handle_ids(data.handles);
                lemma_set_all(data.states, ids, TaskStatusView::Pending);
                let states = data.states.set_all(ids, TaskStatusView::Pending);
                assert(states.status.contains_key(id));
                if ids.contains(id) {
                    let i = choose|i: int| 0 <= i < ids.len() && ids[i] == id;
                    assert(is_running(data.states, data.handles[i].id));
                }
            },
            (PhaseView::Expire { id: other }, EventView::Done) => {
                assert(is_running(data.states, data.handles[data.cursor - 1].id));
            },
            (PhaseView::Skips, EventView::Done) => {
                if left_out(data.dag.nodes, data.states, data.workflow.tasks, id) {
                    let n = choose|n: nat|
                        left_out_within(data.dag.nodes, data.states, data.workflow.tasks, id, n);
                }
            },
            _ => {},
        }
    }
}

/// The status that a task had at the beginning is what it has, and if it is a task of
/// the graph, it has not been taken up.
pub open spec fn kept(run: RunView, id: Text, status: TaskStatusView) -> bool {
    &&& run.data.states.get(id) == Some(status)
    &&& !unbuilt(run.phase) && !(run.phase is TerminateAll) && !(run.phase is Ended)
        && run.data.dag.nodes.contains(id) ==> task_ids(run.data.workflow.tasks).contains(id)
}

/// One step keeps the status of a task that was not pending and has not been taken up.
#[verifier::rlimit(50)]
pub proof fn lemma_kept(run: RunView, event: EventView, now: u128, id: Text, status: TaskStatusView)
    requires
        inv(run),
        kept(run, id, status),
        !(status is Pending),
    ensures
        kept(transition(run, event, now), id, status),
{
    let data = run.data;
    let next = transition(run, event, now);
    if !run.saving {
        match (run.phase, event) {
            (PhaseView::Build, EventView::Done) => {
                law_build_outcome(data.workflow.tasks);
                lemma_with_pending(data.states, task_ids(data.workflow.tasks));
                let states = data.states.with_pending(task_ids(data.workflow.tasks));
                assert(states.status.contains_key(id));
            },
            (PhaseView::Interrupt, EventView::Interrupted { yes }) => {
                let ids = handle_ids(data.handles);
                lemma_set_all(data.states, ids, TaskStatusView::Pending);
                let states = data.states.set_all(ids, TaskStatusView::Pending);
                assert(states.status.contains_key(id));
                if ids.contains(id) {
                    let i = choose|i: int| 0 <= i < ids.len() && ids[i] == id;
                    assert(taken_up(data, data.handles[i].id));
                }
            },
            (PhaseView::Expire { id: other }, EventView::Done) => {
                assert(taken_up(data, data.handles[data.cursor - 1].id));
            },
            (PhaseView::Skips, EventView::Done) => {
                if left_out(data.dag.nodes, data.states, data.workflow.tasks, id) {
                    let n = choose|n: nat|
                        left_out_within(data.dag.nodes, data.states, data.workflow.tasks, id, n);
                }
            },
            (PhaseView::Dispatch, EventView::Done) => {
                let ids = task_ids(data.workflow.tasks);
                let other = data.queue[data.cursor];
                lemma_first_index(ids, other);
                if next.data.workflow.tasks != data.workflow.tasks && ids.contains(id) {
                    let i = first_index(ids, other)->0;
                    assert(task_ids(next.data.workflow.tasks) =~= ids.remove(i));
                    let j = choose|j: int| 0 <= j < ids.len() && ids[j] == id;
                    let k = if j < i { j } else { j - 1 };
                    assert(ids.remove(i)[k] == id);
                }
            },
            _ => {},
        }
    }
}

/// Whether a task could be run when the run began: it was pending or had no status.
pub open spec fn is_fresh(states: TaskStatesView, id: Text) -> bool {
    !states.status.contains_key(id) || states.status[id] is Pending
}

/// Whether a task depends, by the graph, on one that has failed or was left out.
pub open spec fn is_blocked(data: RunDataView, id: Text) -> bool {
    exists|dependency: Text| #[trigger]
        data.dag.edges.contains((dependency, id)) && blocks(data.states, dependency)
}

/// The status of a task has its reason: what was started had all its dependencies
/// completed, and what was left out is blocked.
pub open spec fn has_reason(data: RunDataView, id: Text) -> bool {
    match data.states.get(id) {
        Some(TaskStatusView::Running) => dependencies_completed(data, id),
        Some(TaskStatusView::Completed) => dependencies_completed(data, id),
        Some(TaskStatusView::Failed { error }) => dependencies_completed(data, id),
        Some(TaskStatusView::Skipped) => false,
        Some(TaskStatusView::SkippedDueToDependencyFailure) => is_blocked(data, id),
        _ => true,
    }
}

/// Every task that could be run when the run began has the status that it has for a
/// reason.
pub open spec fn reasoned(run: RunView, states: TaskStatesView) -> bool {
    &&& unbuilt(run.phase) ==> run.data.states == states && run.data.dag.nodes.len() == 0
    &&& forall|id: Text| #[trigger]
        run.data.dag.nodes.contains(id) && is_fresh(states, id) ==> has_reason(run.data, id)
}

/// A reason goes on to hold while what has ended keeps its status.
proof fn lemma_reason_stays(before: RunDataView, after: RunDataView, id: Text)
    requires
        before.dag == after.dag,
        forall|other: Text|
            #![trigger after.states.get(other)]
            #![trigger is_completed(after.states, other)]
            #![trigger blocks(after.states, other)]
            before.states.status.contains_key(other) && before.states.status[other].terminal()
                ==> after.states.get(other) == before.states.get(other),
    ensures
        dependencies_completed(before, id) ==> dependencies_completed(after, id),
        is_blocked(before, id) ==> is_blocked(after, id),
{
    if dependencies_completed(before, id) {
        assert forall|dependency: Text| #[trigger]
            after.dag.edges.contains((dependency, id)) implies is_completed(
            after.states,
            dependency,
        ) by {
            assert(before.dag.edges.contains((dependency, id)));
            assert(is_completed(before.states, dependency));
            assert(after.states.get(dependency) == before.states.get(dependency));
        }
    }
    if is_blocked(before, id) {
        let dependency = choose|dependency: Text| #[trigger]
            before.dag.edges.contains((dependency, id)) && blocks(before.states, dependency);
        assert(after.states.get(dependency) == before.states.get(dependency));
        assert(after.dag.edges.contains((dependency, id)));
    }
}

/// Every step gives statuses for a reason.
#[verifier::rlimit(50)]
pub proof fn lemma_reasoned(run: RunView, event: EventView, now: u128, states: TaskStatesView)
    requires
        inv(run),
        reasoned(run, states),
    ensures
        reasoned(transition(run, event, now), states),
{
    let data = run.data;
    let next = transition(run, event, now);
    if unbuilt(run.phase) {
        if run.phase is Build && event is Done && !run.saving {
            law_build_outcome(data.workflow.tasks);
            let ids = task_ids(data.workflow.tasks);
            lemma_with_pending(data.states, ids);
            assert forall|id: Text| #[trigger]
                next.data.dag.nodes.contains(id) && is_fresh(states, id) implies has_reason(
                next.data,
                id,
            ) by {
                assert(data.states.with_pending(ids).status.contains_key(id));
            }
        }
    } else if next.data.states != data.states {
        assert forall|other: Text|
            #![trigger next.data.states.get(other)]
            #![trigger is_completed(next.data.states, other)]
            #![trigger blocks(next.data.states, other)]
            data.states.status.contains_key(other)
                && data.states.status[other].terminal() implies next.data.states.get(other)
            == data.states.get(other) by {
            lemma_terminal_step(run, event, now, other);
        }
        assert forall|id: Text| #[trigger]
            next.data.dag.nodes.contains(id) && is_fresh(states, id) implies has_reason(
            next.data,
            id,
        ) by {
            assert(has_reason(data, id));
            lemma_reason_stays(data, next.data, id);
            if next.data.states.get(id) != data.states.get(id) {
                lemma_change(run, event, now, id);
            }
        }
    }
}

/// What a step makes of a task whose status it changes.
#[verifier::rlimit(50)]
proof fn lemma_change(run: RunView, event: EventView, now: u128, id: Text)
    requires
        inv(run),
        !unbuilt(run.phase),
        transition(run, event, now).data.states.get(id) != run.data.states.get(id),
    ensures
        match transition(run, event, now).data.states.get(id) {
            Some(TaskStatusView::Pending) => true,
            Some(TaskStatusView::SkippedDueToDependencyFailure) => is_blocked(
                transition(run, event, now).data,
                id,
            ),
            Some(TaskStatusView::Skipped) => false,
            None => false,
            _ => dependencies_completed(run.data, id),
        },
{
    let data = run.data;
    let next = transition(run, event, now);
    match run.phase {
        PhaseView::Interrupt => {
            let ids = handle_ids(data.handles);
            lemma_set_all(data.states, ids, TaskStatusView::Pending);
            let states = data.states.set_all(ids, TaskStatusView::Pending);
            assert(states.status.contains_key(id) <==> data.states.status.contains_key(id)
                || ids.contains(id));
        },
        PhaseView::Expire { id: other } => {
            assert(taken_up(data, data.handles[data.cursor - 1].id));
        },
        PhaseView::Skips => {
            let tasks = data.workflow.tasks;
            law_skips(data.dag.nodes, data.states, tasks, id);
            let dependency = choose|dependency: Text| #[trigger]
                dependencies_of(tasks, id).contains(dependency) && blocks(
                    next.data.states,
                    dependency,
                );
            lemma_first_index(task_ids(tasks), id);
            let i = first_index(task_ids(tasks), id)->0;
            assert(tasks[i].id == id);
            assert(tasks[i].dependencies.contains(dependency));
            assert(next.data.dag.edges.contains((dependency, id)));
        },
        PhaseView::Dispatch => {
            lemma_first_index(task_ids(data.workflow.tasks), data.queue[data.cursor]);
            let i = first_index(task_ids(data.workflow.tasks), data.queue[data.cursor])->0;
            assert(task_ids(data.workflow.tasks)[i] == id);
            assert(task_ids(data.workflow.tasks).contains(id));
        },
        _ => {},
    }
}

/// Whether a task is one that a run has not taken up, going by its status and the one
/// that it began with.
pub open spec fn is_untaken(began: TaskStatesView, states: TaskStatesView, id: Text) -> bool {
    ||| !is_fresh(began, id)
    ||| states.is_pending(id)
    ||| states.get(id) == Some(TaskStatusView::SkippedDueToDependencyFailure)
}

/// Whether some tasks are what stands of other tasks of a workflow.
pub open spec fn is_left_of(
    left: Seq<TaskView>,
    tasks: Seq<TaskView>,
    workflow: WorkflowView,
) -> bool {
    &&& left == standing(tasks)
    &&& task_ids(tasks).no_duplicates()
    &&& forall|i: int| 0 <= i < tasks.len() ==> workflow.tasks.contains(#[trigger] tasks[i])
}

/// The statuses tell whether a task of the graph has been taken up.
pub open spec fn told_by_status(
    run: RunView,
    workflow: WorkflowView,
    began: TaskStatesView,
    id: Text,
) -> bool {
    run.data.dag.nodes.contains(id) ==> match run.phase {
        PhaseView::LogDir | PhaseView::Build | PhaseView::TerminateAll => true,
        PhaseView::Ended { outcome: Err(_) } => true,
        PhaseView::Ended { outcome: Ok(_) } => exists|tasks: Seq<TaskView>| #[trigger]
            is_left_of(run.data.workflow.tasks, tasks, workflow) && (task_ids(tasks).contains(id)
                <==> is_untaken(began, run.data.states, id)),
        _ => task_ids(run.data.workflow.tasks).contains(id) <==> is_untaken(
            began,
            run.data.states,
            id,
        ),
    }
}

/// After every step the statuses tell whether a task has been taken up.
#[verifier::rlimit(50)]
pub proof fn lemma_told_by_status(
    run: RunView,
    event: EventView,
    now: u128,
    workflow: WorkflowView,
    began: TaskStatesView,
    id: Text,
)
    requires
        inv(run),
        comes_from(run, workflow),
        told_by_status(run, workflow, began, id),
        unbuilt(run.phase) ==> run.data.states == began,
        !is_fresh(began, id) ==> kept(run, id, began.status[id]),
    ensures
        told_by_status(transition(run, event, now), workflow, began, id),
{
    let data = run.data;
    let next = transition(run, event, now);
    if !run.saving {
        match (run.phase, event) {
            (PhaseView::Build, EventView::Done) => {
                law_build_outcome(data.workflow.tasks);
                let ids = task_ids(data.workflow.tasks);
                lemma_with_pending(data.states, ids);
                if ids.contains(id) {
                    assert(data.states.with_pending(ids).status.contains_key(id));
                }
            },
            (PhaseView::Expire { id: other }, EventView::Done) => {
                assert(taken_up(data, data.handles[data.cursor - 1].id));
            },
            (PhaseView::Skips, EventView::Done) => {
                if left_out(data.dag.nodes, data.states, data.workflow.tasks, id) {
                    let n = choose|n: nat|
                        left_out_within(data.dag.nodes, data.states, data.workflow.tasks, id, n);
                }
            },
            (PhaseView::Dispatch, EventView::Done) => {
                let ids = task_ids(data.workflow.tasks);
                let other = data.queue[data.cursor];
                lemma_first_index(ids, other);
                if next.data.workflow.tasks != data.workflow.tasks {
                    let i = first_index(ids, other)->0;
                    assert(task_ids(next.data.workflow.tasks) =~= ids.remove(i));
                    if ids.contains(id) && id != other {
                        let j = choose|j: int| 0 <= j < ids.len() && ids[j] == id;
                        let k = if j < i { j } else { j - 1 };
                        assert(ids.remove(i)[k] == id);
                    }
                    if ids.remove(i).contains(id) {
                        let j = choose|j: int|
                            0 <= j < ids.remove(i).len() && ids.remove(i)[j] == id;
                        let k = if j < i { j } else { j + 1 };
                        assert(ids[k] == id);
                        assert(ids[i] != ids[k]);
                    }
                    assert(ids[i] == other);
                }
            },
            (PhaseView::Check, EventView::Done) => {
                if next.phase is Ended {
                    assert(is_left_of(next.data.workflow.tasks, data.workflow.tasks, workflow));
                }
            },
            _ => {},
        }
    }
}

/// Tasks that have all come to an end, and whose graph can be built.
pub open spec fn is_settled(tasks: Seq<TaskView>, states: TaskStatesView) -> bool {
    &&& task_ids(tasks).no_duplicates()
    &&& build_outcome(tasks) is Ok
    &&& forall|id: Text| #[trigger]
        task_ids(tasks).contains(id) ==> states.status.contains_key(id)
            && states.status[id].terminal()
}

/// A run whose tasks have all come to an end before, and which leaves tasks and statuses
/// as they are.
pub open spec fn idle(run: RunView, tasks: Seq<TaskView>, states: TaskStatesView) -> bool {
    &&& run.data.states == states
    &&& run.data.workflow.tasks == tasks
    &&& is_settled(tasks, states)
    &&& run.data.handles.len() == 0
    &&& run.data.cursor >= 0
    &&& run.saving ==> run.phase is Begin || run.phase is Ended
    &&& unbuilt(run.phase) || run.phase is Ended || run.data.dag.nodes == task_ids(tasks)
    &&& match run.phase {
        PhaseView::LogDir | PhaseView::Build | PhaseView::Begin | PhaseView::Interrupt => true,
        PhaseView::TerminateAll | PhaseView::Skips | PhaseView::Periodic => true,
        PhaseView::Ready => true,
        PhaseView::Poll | PhaseView::Process => run.data.queue.len() == 0,
        PhaseView::Dispatch => {
            &&& !run.data.dispatched
            &&& run.data.cursor <= run.data.queue.len() <= tasks.len()
            &&& forall|k: int|
                0 <= k < run.data.queue.len() ==> task_ids(tasks).contains(
                    #[trigger] run.data.queue[k],
                )
        },
        PhaseView::Check => !run.data.dispatched,
        PhaseView::Ended { outcome: Ok(s) } => s == summary(states, s.duration_nanos)
            && !run.saving,
        PhaseView::Ended { outcome: Err(_) } => true,
        _ => false,
    }
}

/// Whether an event tells that something outside failed, or of an interrupt.
pub open spec fn is_trouble(event: EventView) -> bool {
    event is Failed || event == (EventView::Interrupted { yes: true })
}

/// Whether a run has been stopped before its end.
pub open spec fn is_stopped(run: RunView) -> bool {
    run.phase is TerminateAll || run.phase matches PhaseView::Ended { outcome: Err(_) }
}

/// A run that has ended with a summary leaves tasks that have all come to an end, and
/// whose graph can be built.
#[verifier::rlimit(50)]
pub proof fn lemma_end_is_settled(run: RunView)
    requires
        inv(run),
        run.phase matches PhaseView::Ended { outcome: Ok(_) },
    ensures
        is_settled(run.data.workflow.tasks, run.data.states),
{
    let data = run.data;
    let tasks = data.workflow.tasks;
    let ids = task_ids(tasks);
    let edges = declared_edges(tasks);
    let rank = choose|rank: spec_fn(Text) -> nat| #[trigger] ranked(data.dag.edges, rank);
    assert forall|k: int| 0 <= k < edges.len() implies rank((#[trigger] edges[k]).0) < rank(
        edges[k].1,
    ) by {
        assert(edges.contains((edges[k].0, edges[k].1)));
        lemma_declared_edges(tasks, edges[k].0, edges[k].1);
        let i = choose|i: int|
            0 <= i < tasks.len() && (#[trigger] tasks[i]).id == edges[k].1
                && tasks[i].dependencies.contains(edges[k].0);
        assert(data.dag.edges.contains((edges[k].0, tasks[i].id)));
        let j = choose|j: int|
            0 <= j < data.dag.edges.len() && data.dag.edges[j] == (edges[k].0, edges[k].1);
        assert(rank(data.dag.edges[j].0) < rank(data.dag.edges[j].1));
    }
    assert(ranked(edges, rank));
    law_build_outcome(tasks);
    assert forall|id: Text| #[trigger] ids.contains(id) implies data.states.status.contains_key(id)
        && data.states.status[id].terminal() by {
        let i = choose|i: int| 0 <= i < ids.len() && ids[i] == id;
        assert(data.dag.nodes.contains(tasks[i].id));
        let j = choose|j: int| 0 <= j < data.dag.nodes.len() && data.dag.nodes[j] == id;
        assert(data.states.status.contains_key(data.dag.nodes[j]));
    }
}

/// Where every task has a status, none becomes pending.
proof fn lemma_all_known(states: TaskStatesView, ids: Seq<Text>)
    requires
        forall|id: Text| #[trigger] ids.contains(id) ==> states.status.contains_key(id),
    ensures
        states.with_pending(ids) == states,
    decreases ids.len(),
{
    if ids.len() > 0 {
        let rest = ids.drop_last();
        assert forall|id: Text| #[trigger] rest.contains(id) implies states.status.contains_key(
            id,
        ) by {
            let j = choose|j: int| 0 <= j < rest.len() && rest[j] == id;
            assert(ids[j] == id);
            assert(ids.contains(id));
        }
        lemma_all_known(states, rest);
        assert(ids.contains(ids.last()));
    }
}

/// A run without anything to do stays one, and is only stopped by trouble.
#[verifier::rlimit(50)]
pub proof fn lemma_idle(
    run: RunView,
    event: EventView,
    now: u128,
    tasks: Seq<TaskView>,
    states: TaskStatesView,
)
    requires
        idle(run, tasks, states),
    ensures
        idle(transition(run, event, now), tasks, states),
        is_stopped(transition(run, event, now)) ==> is_stopped(run) || is_trouble(event),
{
    let data = run.data;
    let ids = task_ids(tasks);
    if !run.saving {
        match (run.phase, event) {
            (PhaseView::Build, EventView::Done) => {
                law_build_outcome(tasks);
                lemma_all_known(states, ids);
            },
            (PhaseView::Interrupt, EventView::Interrupted { yes }) => {
                assert(handle_ids(data.handles).len() == 0);
            },
            (PhaseView::Skips, EventView::Done) => {
                assert forall|id: Text| !#[trigger] left_out(ids, states, tasks, id) by {
                    if left_out(ids, states, tasks, id) {
                        let n = choose|n: nat| left_out_within(ids, states, tasks, id, n);
                        assert(ids.contains(id));
                    }
                }
                assert(with_skips(ids, states, tasks) =~= states);
            },
            (PhaseView::Ready, EventView::Done) => {
                let ready = |id: Text| data.dag.is_ready(data.states, id);
                lemma_filter_members(ids, ready);
                lemma_filter_len(ids, ready);
                let queue = data.dag.ready_tasks(data.states);
                assert forall|k: int| 0 <= k < queue.len() implies ids.contains(
                    #[trigger] queue[k],
                ) by {
                    assert(queue.contains(queue[k]));
                }
            },
            (PhaseView::Dispatch, EventView::Done) => {
                if data.cursor < data.queue.len() {
                    assert(ids.contains(data.queue[data.cursor]));
                }
            },
            (PhaseView::Check, EventView::Done) => {
                law_build_outcome(tasks);
                law_standing(tasks, arbitrary());
                assert forall|i: int| 0 <= i < ids.len() implies states.status.contains_key(
                    #[trigger] ids[i],
                ) && states.status[ids[i]].terminal() by {
                    assert(ids.contains(ids[i]));
                }
            },
            _ => {},
        }
    }
}

} // verus!
