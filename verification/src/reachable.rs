//! What holds of a run in every state that it can come to.

use crate::dag::{is_done, DagView};
use crate::lists::{lemma_filter_members, lemma_push_contains};
use crate::model::{
    after_build, after_interrupt_check, check, dispatch, expire, go, handle_ids, initial, list_ready,
    periodic, poll, process, refuse, skip, take_off, transition, with_status, after_periodic,
    after_exit, after_collect_failure, after_asking, InFlightView, LaunchView, PhaseView,
    RunDataView, RunView,
};
use crate::protocol::EventView;
use crate::remains::{is_standing, law_standing, standing};
use crate::skips::{blocks, dependencies_of, left_out, left_out_within, with_skips};
use crate::state::{lemma_set_wf, TaskStatesView, TaskStatusView};
use crate::summary::{all_done, summary};
use crate::task::{task_ids, TaskView};
use crate::text::{first_index, lemma_first_index, lemma_first_unique, Text};
use crate::workflow::{
    build_outcome, declared_edges, dependencies_known, law_build_outcome, lemma_declared_edges,
    WorkflowView,
};
use vstd::prelude::*;

verus! {

/// Whether a task has completed.
pub open spec fn is_completed(states: TaskStatesView, id: Text) -> bool {
    states.status.contains_key(id) && states.status[id] is Completed
}

/// Whether a task has been started and has not ended.
pub open spec fn is_running(states: TaskStatesView, id: Text) -> bool {
    states.status.contains_key(id) && states.status[id] is Running
}

/// Whether a task has failed.
pub open spec fn is_failed(states: TaskStatesView, id: Text) -> bool {
    states.status.contains_key(id) && states.status[id] is Failed
}

/// Whether every task that a task depends on has completed.
pub open spec fn dependencies_completed(data: RunDataView, id: Text) -> bool {
    forall|dependency: Text| #[trigger]
        data.dag.edges.contains((dependency, id)) ==> is_completed(data.states, dependency)
}

/// A task that has been taken up: it is a task of the graph, it will not be taken up
/// again, and all that it depends on has completed.
pub open spec fn taken_up(data: RunDataView, id: Text) -> bool {
    &&& data.dag.nodes.contains(id)
    &&& !task_ids(data.workflow.tasks).contains(id)
    &&& dependencies_completed(data, id)
}

/// A task that is being started or settled.
pub open spec fn in_hand(data: RunDataView, id: Text) -> bool {
    &&& taken_up(data, id)
    &&& is_running(data.states, id)
    &&& !handle_ids(data.handles).contains(id)
}

/// The tasks that have not been taken up are tasks of the graph, and their
/// dependencies are its edges.
pub open spec fn tasks_in_graph(tasks: Seq<TaskView>, dag: DagView) -> bool {
    &&& forall|i: int| 0 <= i < tasks.len() ==> dag.nodes.contains((#[trigger] tasks[i]).id)
    &&& forall|i: int, dependency: Text|
        #![trigger tasks[i].dependencies.contains(dependency)]
        #![trigger tasks[i], dag.edges.contains((dependency, tasks[i].id))]
        0 <= i < tasks.len() ==> (tasks[i].dependencies.contains(dependency)
            <==> dag.edges.contains((dependency, tasks[i].id)))
}

/// What holds once the graph has been built.
pub open spec fn data_inv(data: RunDataView) -> bool {
    &&& data.workflow.wf()
    &&& data.states.wf()
    &&& data.dag.wf()
    &&& forall|id: Text| #[trigger]
        data.dag.nodes.contains(id) ==> data.states.status.contains_key(id)
    &&& tasks_in_graph(data.workflow.tasks, data.dag)
    &&& handle_ids(data.handles).no_duplicates()
    &&& forall|i: int| 0 <= i < data.handles.len() ==> taken_up(data, (#[trigger] data.handles[i]).id)
    &&& data.handles.len() <= data.workflow.max_parallel
    &&& data.cursor >= 0
    &&& data.hook_cursor >= 0
}

/// Every task in flight is running.
pub open spec fn all_running(data: RunDataView) -> bool {
    forall|i: int|
        0 <= i < data.handles.len() ==> is_running(data.states, (#[trigger] data.handles[i]).id)
}

/// Whether a text stands in a list at a place or later.
pub open spec fn contains_from(list: Seq<Text>, from: int, wanted: Text) -> bool {
    exists|k: int| from <= k < list.len() && #[trigger] list[k] == wanted
}

/// The tasks in flight that have been polled are running, or have failed and are noted
/// as finished; the others are running.
pub open spec fn polled(data: RunDataView, upto: int) -> bool {
    &&& 0 <= upto <= data.handles.len()
    &&& forall|i: int|
        0 <= i < data.handles.len() ==> is_running(data.states, (#[trigger] data.handles[i]).id)
            || (i < upto && is_failed(data.states, data.handles[i].id) && contains_from(
            data.queue,
            0,
            data.handles[i].id,
        ))
}

/// The tasks in flight are running, or have failed and are still to be settled.
pub open spec fn settling(data: RunDataView) -> bool {
    forall|i: int|
        0 <= i < data.handles.len() ==> is_running(data.states, (#[trigger] data.handles[i]).id)
            || (is_failed(data.states, data.handles[i].id) && contains_from(
            data.queue,
            data.cursor,
            data.handles[i].id,
        ))
}

/// No pending task has a dependency that has failed or was left out.
pub open spec fn nothing_to_skip(data: RunDataView) -> bool {
    forall|i: int, dependency: Text|
        0 <= i < data.workflow.tasks.len() && data.states.is_pending(
            data.workflow.tasks[i].id,
        ) && #[trigger] data.workflow.tasks[i].dependencies.contains(dependency) ==> !blocks(
            data.states,
            dependency,
        )
}

/// All that a pending task in the rest of the queue depends on has completed.
pub open spec fn queue_startable(data: RunDataView) -> bool {
    forall|k: int|
        data.cursor <= k < data.queue.len() && data.states.is_pending(#[trigger] data.queue[k])
            && task_ids(data.workflow.tasks).contains(data.queue[k]) ==> dependencies_completed(
            data,
            data.queue[k],
        )
}

/// What holds while a task is being started.
pub open spec fn launching(data: RunDataView, launch: LaunchView) -> bool {
    &&& all_running(data)
    &&& queue_startable(data)
    &&& in_hand(data, launch.task.id)
    &&& forall|dependency: Text| #[trigger]
        launch.task.dependencies.contains(dependency) ==> is_completed(data.states, dependency)
    &&& data.handles.len() < data.workflow.max_parallel
}

/// What holds in a phase beyond what holds of the data.
pub open spec fn phase_inv(data: RunDataView, phase: PhaseView) -> bool {
    match phase {
        PhaseView::Poll => polled(data, data.cursor),
        PhaseView::Expire { id } | PhaseView::AskRunning { id } => {
            &&& data.cursor >= 1
            &&& polled(data, data.cursor - 1)
            &&& data.cursor <= data.handles.len()
            &&& data.handles[data.cursor - 1].id == id
        },
        PhaseView::Process => settling(data),
        PhaseView::Settle { batch } => settling(data),
        PhaseView::Wait { task } => settling(data) && in_hand(data, task.id),
        PhaseView::Collect { task } => settling(data) && in_hand(data, task.id),
        PhaseView::Periodic => all_running(data) && nothing_to_skip(data),
        PhaseView::FirePeriodic { name, batch } => all_running(data) && nothing_to_skip(data),
        PhaseView::Ready => all_running(data) && nothing_to_skip(data),
        PhaseView::Dispatch => all_running(data) && queue_startable(data),
        PhaseView::Setup { launch } => launching(data, launch),
        PhaseView::Launch { launch } => launching(data, launch),
        PhaseView::Announce { launch, batch } => launching(data, launch),
        _ => all_running(data),
    }
}

/// What holds of a run in every state that it can come to.
pub open spec fn inv(run: RunView) -> bool {
    run.data.handles.len() <= run.data.workflow.max_parallel && match run.phase {
        PhaseView::LogDir | PhaseView::Build => {
            &&& run.data.workflow.wf()
            &&& run.data.states.wf()
            &&& run.data.handles.len() == 0
            &&& run.data.cursor >= 0
            &&& run.data.hook_cursor >= 0
        },
        PhaseView::TerminateAll => true,
        PhaseView::Ended { outcome } => match outcome {
            Ok(s) => {
                &&& data_inv(run.data)
                &&& all_done(run.data.dag, run.data.states)
                &&& run.data.handles.len() == 0
                &&& dependencies_known(run.data.workflow.tasks)
                &&& s == summary(run.data.states, s.duration_nanos)
            },
            Err(_) => true,
        },
        _ => data_inv(run.data) && phase_inv(run.data, run.phase),
    }
}

/// What giving several tasks a status does.
pub proof fn lemma_set_all(states: TaskStatesView, ids: Seq<Text>, status: TaskStatusView)
    ensures
        states.wf() ==> states.set_all(ids, status).wf(),
        forall|id: Text| #[trigger]
            states.set_all(ids, status).status.contains_key(id) <==> states.status.contains_key(id)
                || ids.contains(id),
        forall|id: Text| #[trigger]
            states.set_all(ids, status).status.contains_key(id) ==> states.set_all(
                ids,
                status,
            ).status[id] == (if ids.contains(id) {
                status
            } else {
                states.status[id]
            }),
    decreases ids.len(),
{
    if ids.len() > 0 {
        let rest = ids.drop_last();
        let before = states.set_all(rest, status);
        let after = states.set_all(ids, status);
        lemma_set_all(states, rest, status);
        assert(rest.push(ids.last()) =~= ids);
        if states.wf() {
            lemma_set_wf(before, ids.last(), status);
        }
        assert forall|id: Text| #[trigger] after.status.contains_key(id) <==> (
        states.status.contains_key(id) || ids.contains(id)) by {
            lemma_push_contains(rest, ids.last(), id);
            assert(before.status.contains_key(id) <==> states.status.contains_key(id)
                || rest.contains(id));
        }
        assert forall|id: Text| #[trigger] after.status.contains_key(id) implies after.status[id]
            == (if ids.contains(id) {
            status
        } else {
            states.status[id]
        }) by {
            lemma_push_contains(rest, ids.last(), id);
            if id != ids.last() {
                assert(before.status.contains_key(id));
            }
        }
    }
}

/// What giving the tasks without a status the status `Pending` does.
pub proof fn lemma_with_pending(states: TaskStatesView, ids: Seq<Text>)
    ensures
        states.wf() ==> states.with_pending(ids).wf(),
        forall|id: Text| #[trigger]
            states.with_pending(ids).status.contains_key(id) <==> states.status.contains_key(id)
                || ids.contains(id),
        forall|id: Text| #[trigger]
            states.with_pending(ids).status.contains_key(id) ==> states.with_pending(
                ids,
            ).status[id] == (if states.status.contains_key(id) {
                states.status[id]
            } else {
                TaskStatusView::Pending
            }),
    decreases ids.len(),
{
    if ids.len() > 0 {
        let rest = ids.drop_last();
        let before = states.with_pending(rest);
        let after = states.with_pending(ids);
        lemma_with_pending(states, rest);
        assert(rest.push(ids.last()) =~= ids);
        if states.wf() {
            lemma_set_wf(before, ids.last(), TaskStatusView::Pending);
        }
        assert forall|id: Text| #[trigger] after.status.contains_key(id) <==> (
        states.status.contains_key(id) || ids.contains(id)) by {
            lemma_push_contains(rest, ids.last(), id);
            assert(before.status.contains_key(id) <==> states.status.contains_key(id)
                || rest.contains(id));
        }
        assert forall|id: Text| #[trigger] after.status.contains_key(id) implies after.status[id]
            == (if states.status.contains_key(id) {
            states.status[id]
        } else {
            TaskStatusView::Pending
        }) by {
            assert(before.status.contains_key(id) || id == ids.last());
        }
    }
}

/// A run begins well.
pub proof fn lemma_initial(workflow: WorkflowView, states: TaskStatesView)
    requires
        workflow.wf(),
        states.wf(),
    ensures
        inv(initial(workflow, states)),
{
}

/// The built graph holds what is needed of it.
proof fn lemma_build(data: RunDataView)
    requires
        inv(go(data, PhaseView::Build)),
    ensures
        inv(after_build(data)),
{
    let tasks = data.workflow.tasks;
    law_build_outcome(tasks);
    if let Ok(dag) = build_outcome(tasks) {
        lemma_with_pending(data.states, dag.nodes);
        let after = after_build(data).data;
        assert forall|i: int| 0 <= i < tasks.len() implies dag.nodes.contains(
            (#[trigger] tasks[i]).id,
        ) by {
            assert(task_ids(tasks)[i] == tasks[i].id);
        }
        assert forall|i: int, dependency: Text|
            #![trigger tasks[i].dependencies.contains(dependency)]
            #![trigger tasks[i], dag.edges.contains((dependency, tasks[i].id))]
            0 <= i < tasks.len() implies (tasks[i].dependencies.contains(dependency)
            <==> dag.edges.contains((dependency, tasks[i].id))) by {
            lemma_declared_edges(tasks, dependency, tasks[i].id);
            if dag.edges.contains((dependency, tasks[i].id)) {
                let j = choose|j: int|
                    0 <= j < tasks.len() && (#[trigger] tasks[j]).id == tasks[i].id
                        && tasks[j].dependencies.contains(dependency);
                assert(task_ids(tasks)[j] == task_ids(tasks)[i]);
            }
        }
        assert(tasks_in_graph(tasks, dag));
        assert forall|id: Text| #[trigger]
            after.dag.nodes.contains(id) implies after.states.status.contains_key(id) by {
            assert(after.states.status.contains_key(id));
        }
    }
}

/// Statuses that keep what has completed keep what holds of the data.
proof fn lemma_statuses(data: RunDataView, states: TaskStatesView)
    requires
        data_inv(data),
        states.wf(),
        forall|id: Text| #[trigger]
            data.states.status.contains_key(id) ==> states.status.contains_key(id),
        forall|id: Text| #[trigger]
            is_completed(data.states, id) ==> is_completed(states, id),
    ensures
        data_inv(RunDataView { states, ..data }),
        forall|id: Text| #[trigger]
            taken_up(data, id) ==> taken_up(RunDataView { states, ..data }, id),
        forall|id: Text| #[trigger]
            dependencies_completed(data, id) ==> dependencies_completed(
                RunDataView { states, ..data },
                id,
            ),
{
    let after = RunDataView { states, ..data };
    assert forall|id: Text| #[trigger] dependencies_completed(
        data,
        id,
    ) implies dependencies_completed(after, id) by {
        assert forall|dependency: Text| #[trigger]
            after.dag.edges.contains((dependency, id)) implies is_completed(
            after.states,
            dependency,
        ) by {
            assert(data.dag.edges.contains((dependency, id)));
            assert(is_completed(data.states, dependency));
        }
    }
    assert forall|id: Text| #[trigger] taken_up(data, id) implies taken_up(after, id) by {
        assert(dependencies_completed(data, id));
    }
    assert forall|i: int| 0 <= i < after.handles.len() implies taken_up(
        after,
        (#[trigger] after.handles[i]).id,
    ) by {
        assert(taken_up(data, data.handles[i].id));
    }
}

/// Giving a task that has not completed another status keeps what holds of the data.
proof fn lemma_with_status(data: RunDataView, id: Text, status: TaskStatusView)
    requires
        data_inv(data),
        data.states.status.contains_key(id),
        !is_completed(data.states, id),
    ensures
        data_inv(with_status(data, id, status)),
        forall|other: Text| #[trigger]
            taken_up(data, other) ==> taken_up(with_status(data, id, status), other),
        forall|other: Text| #[trigger]
            dependencies_completed(data, other) ==> dependencies_completed(
                with_status(data, id, status),
                other,
            ),
{
    lemma_set_wf(data.states, id, status);
    lemma_statuses(data, data.states.set(id, status));
}

/// Where the statuses, the graph, the tasks and the tasks in flight are the same, what
/// holds of the data is the same.
proof fn lemma_same(before: RunDataView, after: RunDataView)
    requires
        data_inv(before),
        after.states == before.states,
        after.dag == before.dag,
        after.workflow == before.workflow,
        after.handles == before.handles,
        after.cursor >= 0,
        after.hook_cursor >= 0,
    ensures
        data_inv(after),
        forall|id: Text| #[trigger] taken_up(before, id) ==> taken_up(after, id),
        forall|id: Text| #[trigger]
            dependencies_completed(before, id) ==> dependencies_completed(after, id),
{
    assert forall|id: Text| #[trigger] dependencies_completed(
        before,
        id,
    ) implies dependencies_completed(after, id) by {
        assert forall|dependency: Text| #[trigger]
            after.dag.edges.contains((dependency, id)) implies is_completed(
            after.states,
            dependency,
        ) by {
            assert(before.dag.edges.contains((dependency, id)));
        }
    }
    assert forall|id: Text| #[trigger] taken_up(before, id) implies taken_up(after, id) by {
        assert(dependencies_completed(before, id));
    }
    assert forall|i: int| 0 <= i < after.handles.len() implies taken_up(
        after,
        (#[trigger] after.handles[i]).id,
    ) by {
        assert(taken_up(before, before.handles[i].id));
    }
}

/// The task in flight at a place is the only one of its id.
proof fn lemma_handle_unique(handles: Seq<InFlightView>, i: int, j: int)
    requires
        handle_ids(handles).no_duplicates(),
        0 <= i < handles.len(),
        0 <= j < handles.len(),
        handles[i].id == handles[j].id,
    ensures
        i == j,
{
    assert(handle_ids(handles)[i] == handle_ids(handles)[j]);
}

/// What is left in flight when a task is taken out.
proof fn lemma_remove_handle(data: RunDataView, i: int)
    requires
        data_inv(data),
        0 <= i < data.handles.len(),
    ensures
        ({
            let after = RunDataView { handles: data.handles.remove(i), ..data };
            &&& data_inv(after)
            &&& !handle_ids(after.handles).contains(data.handles[i].id)
            &&& taken_up(after, data.handles[i].id)
        }),
{
    let after = RunDataView { handles: data.handles.remove(i), ..data };
    let ids = handle_ids(data.handles);
    assert(handle_ids(after.handles) =~= ids.remove(i));
    assert forall|id: Text| #[trigger] taken_up(data, id) implies taken_up(after, id) by {
        assert(dependencies_completed(data, id));
        assert forall|dependency: Text| #[trigger]
            after.dag.edges.contains((dependency, id)) implies is_completed(
            after.states,
            dependency,
        ) by {
            assert(data.dag.edges.contains((dependency, id)));
        }
    }
    assert forall|j: int| 0 <= j < after.handles.len() implies taken_up(
        after,
        (#[trigger] after.handles[j]).id,
    ) by {
        let k = if j < i { j } else { j + 1 };
        assert(after.handles[j] == data.handles[k]);
        assert(taken_up(data, data.handles[k].id));
    }
    assert forall|j: int, k: int|
        0 <= j < k < ids.remove(i).len() implies ids.remove(i)[j] != ids.remove(i)[k] by {
        let j2 = if j < i { j } else { j + 1 };
        let k2 = if k < i { k } else { k + 1 };
        assert(ids[j2] != ids[k2]);
    }
    if handle_ids(after.handles).contains(data.handles[i].id) {
        let j = choose|j: int|
            0 <= j < ids.remove(i).len() && ids.remove(i)[j] == data.handles[i].id;
        let j2 = if j < i { j } else { j + 1 };
        assert(ids[j2] == ids[i]);
    }
    assert(taken_up(data, data.handles[i].id));
}

/// Polling keeps what holds.
proof fn lemma_poll(data: RunDataView, now: u128)
    requires
        inv(go(data, PhaseView::Poll)),
    ensures
        inv(poll(data, now)),
{
    lemma_same(data, poll(data, now).data);
}

/// Ending a task whose time is up keeps what holds.
proof fn lemma_expire(data: RunDataView, id: Text)
    requires
        inv(go(data, PhaseView::Expire { id })),
    ensures
        inv(expire(data, id)),
{
    let i = data.cursor - 1;
    let after = expire(data, id).data;
    let status = after.states.status[id];
    assert(is_running(data.states, data.handles[i].id));
    lemma_with_status(data, id, status);
    lemma_same(with_status(data, id, status), after);
    assert forall|j: int| 0 <= j < after.handles.len() implies is_running(
        after.states,
        (#[trigger] after.handles[j]).id,
    ) || (j < after.cursor && is_failed(after.states, after.handles[j].id) && contains_from(
        after.queue,
        0,
        after.handles[j].id,
    )) by {
        if j == i {
            assert(after.queue[data.queue.len() as int] == id);
        } else {
            if data.handles[j].id == id {
                lemma_handle_unique(data.handles, i, j);
            }
            if contains_from(data.queue, 0, data.handles[j].id) {
                let k = choose|k: int|
                    0 <= k < data.queue.len() && #[trigger] data.queue[k] == data.handles[j].id;
                assert(after.queue[k] == data.handles[j].id);
            }
        }
    }
}

/// Noting that a task has finished keeps what holds.
proof fn lemma_after_asking(data: RunDataView, id: Text, running: bool)
    requires
        inv(go(data, PhaseView::AskRunning { id })),
    ensures
        inv(after_asking(data, id, running)),
{
    let after = after_asking(data, id, running).data;
    lemma_same(data, after);
    assert forall|j: int| 0 <= j < after.handles.len() implies is_running(
        after.states,
        (#[trigger] after.handles[j]).id,
    ) || (j < after.cursor && is_failed(after.states, after.handles[j].id) && contains_from(
        after.queue,
        0,
        after.handles[j].id,
    )) by {
        if contains_from(data.queue, 0, data.handles[j].id) {
            let k = choose|k: int|
                0 <= k < data.queue.len() && #[trigger] data.queue[k] == data.handles[j].id;
            assert(after.queue[k] == data.handles[j].id);
        }
    }
}

/// Going on to the next finished task keeps what holds.
proof fn lemma_process(data: RunDataView)
    requires
        inv(go(data, PhaseView::Process)),
    ensures
        inv(process(data)),
{
    if data.cursor >= data.queue.len() {
        assert(all_running(data));
    } else {
        let id = data.queue[data.cursor];
        let next = RunDataView { cursor: data.cursor + 1, ..data };
        let after = process(data).data;
        lemma_same(data, next);
        lemma_first_index(handle_ids(data.handles), id);
        assert forall|j: int|
            0 <= j < data.handles.len() && data.handles[j].id != id implies is_running(
            next.states,
            (#[trigger] data.handles[j]).id,
        ) || (is_failed(next.states, data.handles[j].id) && contains_from(
            next.queue,
            next.cursor,
            data.handles[j].id,
        )) by {
            if contains_from(data.queue, data.cursor, data.handles[j].id) {
                let k = choose|k: int|
                    data.cursor <= k < data.queue.len() && #[trigger] data.queue[k]
                        == data.handles[j].id;
                assert(next.queue[k] == data.handles[j].id);
            }
        }
        match first_index(handle_ids(data.handles), id) {
            None => {
                assert forall|j: int| 0 <= j < next.handles.len() implies is_running(
                    next.states,
                    (#[trigger] next.handles[j]).id,
                ) || (is_failed(next.states, next.handles[j].id) && contains_from(
                    next.queue,
                    next.cursor,
                    next.handles[j].id,
                )) by {
                    assert(handle_ids(data.handles)[j] == data.handles[j].id);
                }
            },
            Some(i) => {
                lemma_remove_handle(next, i);
                assert(data.handles[i].id == id);
                assert forall|j: int| 0 <= j < after.handles.len() implies is_running(
                    after.states,
                    (#[trigger] after.handles[j]).id,
                ) || (is_failed(after.states, after.handles[j].id) && contains_from(
                    after.queue,
                    after.cursor,
                    after.handles[j].id,
                )) by {
                    let k = if j < i { j } else { j + 1 };
                    assert(after.handles[j] == data.handles[k]);
                    if data.handles[k].id == id {
                        lemma_handle_unique(data.handles, i, k);
                    }
                }
            },
        }
    }
}

/// Giving a task in hand its final status keeps what holds.
proof fn lemma_settle(data: RunDataView, id: Text, status: TaskStatusView)
    requires
        data_inv(data),
        settling(data),
        in_hand(data, id),
    ensures
        data_inv(with_status(data, id, status)),
        settling(with_status(data, id, status)),
{
    let after = with_status(data, id, status);
    lemma_with_status(data, id, status);
    assert forall|j: int| 0 <= j < after.handles.len() implies is_running(
        after.states,
        (#[trigger] after.handles[j]).id,
    ) || (is_failed(after.states, after.handles[j].id) && contains_from(
        after.queue,
        after.cursor,
        after.handles[j].id,
    )) by {
        assert(handle_ids(data.handles)[j] == data.handles[j].id);
        assert(data.handles[j].id != id);
    }
}

/// Leaving out tasks keeps what holds, and leaves none that is to be left out.
proof fn lemma_skip(data: RunDataView)
    requires
        inv(go(data, PhaseView::Skips)),
    ensures
        inv(skip(data)),
{
    let nodes = data.dag.nodes;
    let tasks = data.workflow.tasks;
    let after = skip(data).data;
    let states = with_skips(nodes, data.states, tasks);
    assert forall|id: Text| states.ids.contains(id) <==> #[trigger] states.status.contains_key(
        id,
    ) by {
        assert(data.states.ids.contains(id) <==> data.states.status.contains_key(id));
    }
    assert forall|id: Text| #[trigger] left_out(
        nodes,
        data.states,
        tasks,
        id,
    ) implies data.states.is_pending(id) by {
        let n = choose|n: nat| left_out_within(nodes, data.states, tasks, id, n);
    }
    lemma_statuses(data, states);
    lemma_same(RunDataView { states, ..data }, after);
    assert forall|i: int, dependency: Text|
        0 <= i < tasks.len() && states.is_pending(tasks[i].id) && #[trigger]
            tasks[i].dependencies.contains(dependency) implies !blocks(states, dependency) by {
        let id = tasks[i].id;
        lemma_first_task(tasks, i);
        assert(dependencies_of(tasks, id) == tasks[i].dependencies);
        if blocks(states, dependency) {
            assert(data.states.is_pending(id));
            if left_out(nodes, data.states, tasks, dependency) {
                let n = choose|n: nat| left_out_within(nodes, data.states, tasks, dependency, n);
                assert(left_out_within(nodes, data.states, tasks, id, n + 1));
            } else {
                assert(blocks(data.states, dependency));
                assert(left_out_within(nodes, data.states, tasks, id, 1));
            }
            assert(left_out(nodes, data.states, tasks, id));
        }
    }
}

/// Where ids differ, a task is the first of its id.
proof fn lemma_first_task(tasks: Seq<TaskView>, i: int)
    requires
        task_ids(tasks).no_duplicates(),
        0 <= i < tasks.len(),
    ensures
        first_index(task_ids(tasks), tasks[i].id) == Some(i),
{
    let ids = task_ids(tasks);
    assert(ids[i] == tasks[i].id);
    assert forall|j: int| 0 <= j < i implies ids[j] != tasks[i].id by {
        assert(ids[j] != ids[i]);
    }
    lemma_first_unique(ids, tasks[i].id, i);
}

/// Noting when a hook ran keeps what holds.
proof fn lemma_after_periodic(data: RunDataView, name: Text, now: u128)
    requires
        data_inv(data),
        all_running(data),
        nothing_to_skip(data),
    ensures
        inv(after_periodic(data, name, now)),
{
    let after = after_periodic(data, name, now).data;
    assert forall|j: int| 0 <= j < after.handles.len() implies (#[trigger] after.handles[j]).id
        == data.handles[j].id by {}
    assert(handle_ids(after.handles) =~= handle_ids(data.handles));
    assert forall|j: int| 0 <= j < after.handles.len() implies taken_up(
        after,
        (#[trigger] after.handles[j]).id,
    ) by {
        assert(taken_up(data, data.handles[j].id));
        assert(dependencies_completed(data, data.handles[j].id));
        assert forall|dependency: Text| #[trigger]
            after.dag.edges.contains((dependency, after.handles[j].id)) implies is_completed(
            after.states,
            dependency,
        ) by {
            assert(data.dag.edges.contains((dependency, data.handles[j].id)));
        }
    }
    assert forall|j: int| 0 <= j < after.handles.len() implies is_running(
        after.states,
        (#[trigger] after.handles[j]).id,
    ) by {
        assert(is_running(data.states, data.handles[j].id));
    }
    assert forall|i: int, dependency: Text|
        0 <= i < after.workflow.tasks.len() && after.states.is_pending(
            after.workflow.tasks[i].id,
        ) && #[trigger] after.workflow.tasks[i].dependencies.contains(
            dependency,
        ) implies !blocks(after.states, dependency) by {
        assert(data.workflow.tasks[i].dependencies.contains(dependency));
    }
}

/// Listing the ready tasks keeps what holds: what a pending one depends on is done and
/// blocks nothing, so it has completed.
proof fn lemma_list_ready(data: RunDataView)
    requires
        inv(go(data, PhaseView::Ready)),
    ensures
        inv(list_ready(data)),
{
    let after = list_ready(data).data;
    lemma_same(data, after);
    let ready = |id: Text| data.dag.is_ready(data.states, id);
    lemma_filter_members(data.dag.nodes, ready);
    assert forall|k: int|
        after.cursor <= k < after.queue.len() && after.states.is_pending(#[trigger] after.queue[k])
            && task_ids(after.workflow.tasks).contains(
            after.queue[k],
        ) implies dependencies_completed(after, after.queue[k]) by {
        let id = after.queue[k];
        let tasks = data.workflow.tasks;
        assert(data.dag.nodes.filter(ready).contains(id));
        assert(data.dag.is_ready(data.states, id));
        let i = choose|i: int| 0 <= i < task_ids(tasks).len() && task_ids(tasks)[i] == id;
        assert(tasks[i].id == id);
        assert forall|dependency: Text| #[trigger]
            after.dag.edges.contains((dependency, id)) implies is_completed(
            after.states,
            dependency,
        ) by {
            assert(data.dag.edges.contains((dependency, tasks[i].id)));
            assert(tasks[i].dependencies.contains(dependency));
            assert(is_done(data.states, dependency));
            assert(!blocks(data.states, dependency));
        }
    }
}

/// Going on to the next ready task keeps what holds.
proof fn lemma_dispatch(data: RunDataView)
    requires
        inv(go(data, PhaseView::Dispatch)),
    ensures
        inv(dispatch(data)),
{
    if !(data.cursor >= data.queue.len() || data.handles.len() >= data.workflow.max_parallel) {
        let id = data.queue[data.cursor];
        let tasks = data.workflow.tasks;
        let next = RunDataView { cursor: data.cursor + 1, ..data };
        lemma_same(data, next);
        lemma_first_index(task_ids(tasks), id);
        assert forall|k: int|
            next.cursor <= k < next.queue.len() && next.states.is_pending(#[trigger] next.queue[k])
                && task_ids(next.workflow.tasks).contains(
                next.queue[k],
            ) implies dependencies_completed(next, next.queue[k]) by {
            assert(dependencies_completed(data, data.queue[k]));
        }
        if data.states.is_pending(id) && first_index(task_ids(tasks), id) is Some {
            let i = first_index(task_ids(tasks), id)->0;
            assert(tasks[i].id == id);
            assert(dependencies_completed(data, data.queue[data.cursor]));
            lemma_take_up(next, i);
        }
    }
}

/// Taking up a pending task of which all dependencies have completed keeps what holds.
proof fn lemma_take_up(data: RunDataView, i: int)
    requires
        data_inv(data),
        all_running(data),
        queue_startable(data),
        0 <= i < data.workflow.tasks.len(),
        data.states.is_pending(data.workflow.tasks[i].id),
        dependencies_completed(data, data.workflow.tasks[i].id),
        data.handles.len() < data.workflow.max_parallel,
    ensures
        ({
            let task = data.workflow.tasks[i];
            let after = RunDataView {
                workflow: WorkflowView { tasks: data.workflow.tasks.remove(i), ..data.workflow },
                states: data.states.set(task.id, TaskStatusView::Running),
                ..data
            };
            &&& data_inv(after)
            &&& all_running(after)
            &&& queue_startable(after)
            &&& in_hand(after, task.id)
            &&& forall|dependency: Text| #[trigger]
                task.dependencies.contains(dependency) ==> is_completed(after.states, dependency)
        }),
{
    let tasks = data.workflow.tasks;
    let task = tasks[i];
    let id = task.id;
    let rest = tasks.remove(i);
    let marked = with_status(data, id, TaskStatusView::Running);
    let after = RunDataView {
        workflow: WorkflowView { tasks: rest, ..data.workflow },
        states: data.states.set(id, TaskStatusView::Running),
        ..data
    };
    let ids = task_ids(tasks);
    lemma_with_status(data, id, TaskStatusView::Running);
    assert(task_ids(rest) =~= ids.remove(i));
    assert(ids[i] == id);
    assert forall|j: int, k: int|
        0 <= j < k < ids.remove(i).len() implies ids.remove(i)[j] != ids.remove(i)[k] by {
        let j2 = if j < i { j } else { j + 1 };
        let k2 = if k < i { k } else { k + 1 };
        assert(ids[j2] != ids[k2]);
    }
    if ids.remove(i).contains(id) {
        let j = choose|j: int| 0 <= j < ids.remove(i).len() && ids.remove(i)[j] == id;
        let j2 = if j < i { j } else { j + 1 };
        assert(ids[j2] == ids[i]);
    }
    assert forall|other: Text| task_ids(rest).contains(other) implies ids.contains(other) by {
        let j = choose|j: int| 0 <= j < ids.remove(i).len() && ids.remove(i)[j] == other;
        let j2 = if j < i { j } else { j + 1 };
        assert(ids[j2] == other);
    }
    assert forall|other: Text| #[trigger] dependencies_completed(
        marked,
        other,
    ) implies dependencies_completed(after, other) by {
        assert forall|dependency: Text| #[trigger]
            after.dag.edges.contains((dependency, other)) implies is_completed(
            after.states,
            dependency,
        ) by {
            assert(marked.dag.edges.contains((dependency, other)));
        }
    }
    assert forall|j: int| 0 <= j < rest.len() implies after.dag.nodes.contains(
        (#[trigger] rest[j]).id,
    ) by {
        let j2 = if j < i { j } else { j + 1 };
        assert(rest[j] == tasks[j2]);
    }
    assert forall|j: int, dependency: Text|
        #![trigger rest[j].dependencies.contains(dependency)]
        #![trigger rest[j], after.dag.edges.contains((dependency, rest[j].id))]
        0 <= j < rest.len() implies (rest[j].dependencies.contains(dependency)
        <==> after.dag.edges.contains((dependency, rest[j].id))) by {
        let j2 = if j < i { j } else { j + 1 };
        assert(rest[j] == tasks[j2]);
        assert(tasks[j2].dependencies.contains(dependency) <==> data.dag.edges.contains(
            (dependency, tasks[j2].id),
        ));
    }
    assert forall|j: int| 0 <= j < after.handles.len() implies taken_up(
        after,
        (#[trigger] after.handles[j]).id,
    ) by {
        assert(taken_up(data, data.handles[j].id));
        assert(taken_up(marked, data.handles[j].id));
        assert(dependencies_completed(marked, data.handles[j].id));
    }
    assert forall|j: int| 0 <= j < after.handles.len() implies is_running(
        after.states,
        (#[trigger] after.handles[j]).id,
    ) by {
        assert(is_running(data.states, data.handles[j].id));
    }
    assert forall|k: int|
        after.cursor <= k < after.queue.len() && after.states.is_pending(#[trigger] after.queue[k])
            && task_ids(after.workflow.tasks).contains(
            after.queue[k],
        ) implies dependencies_completed(after, after.queue[k]) by {
        assert(data.states.is_pending(data.queue[k]));
        assert(dependencies_completed(data, data.queue[k]));
        assert(dependencies_completed(marked, data.queue[k]));
    }
    assert(dependencies_completed(marked, id));
    assert(!handle_ids(after.handles).contains(id)) by {
        if handle_ids(after.handles).contains(id) {
            let j = choose|j: int|
                0 <= j < handle_ids(data.handles).len() && handle_ids(data.handles)[j] == id;
            assert(taken_up(data, data.handles[j].id));
            assert(ids.contains(id));
        }
    }
    assert forall|dependency: Text| #[trigger]
        task.dependencies.contains(dependency) implies is_completed(after.states, dependency) by {
        assert(tasks[i].dependencies.contains(dependency));
        assert(data.dag.edges.contains((dependency, id)));
        assert(after.dag.edges.contains((dependency, id)));
    }
}

/// Giving up on a task that could not be started keeps what holds.
proof fn lemma_refuse(data: RunDataView, launch: LaunchView, error: Text)
    requires
        data_inv(data),
        launching(data, launch),
    ensures
        inv(refuse(data, launch.task.id, error)),
{
    let id = launch.task.id;
    let after = refuse(data, id, error).data;
    lemma_with_status(data, id, TaskStatusView::Failed { error });
    assert forall|j: int| 0 <= j < after.handles.len() implies is_running(
        after.states,
        (#[trigger] after.handles[j]).id,
    ) by {
        assert(handle_ids(data.handles)[j] == data.handles[j].id);
        assert(is_running(data.states, data.handles[j].id));
    }
    assert forall|k: int|
        after.cursor <= k < after.queue.len() && after.states.is_pending(#[trigger] after.queue[k])
            && task_ids(after.workflow.tasks).contains(
            after.queue[k],
        ) implies dependencies_completed(after, after.queue[k]) by {
        assert(data.states.is_pending(data.queue[k]));
        assert(dependencies_completed(data, data.queue[k]));
    }
}

/// Counting a task among those in flight keeps what holds.
proof fn lemma_take_off(data: RunDataView, launch: LaunchView, now: u128)
    requires
        data_inv(data),
        launching(data, launch),
    ensures
        inv(take_off(data, launch, now)),
{
    let id = launch.task.id;
    let after = take_off(data, launch, now).data;
    let ids = handle_ids(data.handles);
    assert(handle_ids(after.handles) =~= ids.push(id));
    assert forall|other: Text| #[trigger] dependencies_completed(
        data,
        other,
    ) implies dependencies_completed(after, other) by {
        assert forall|dependency: Text| #[trigger]
            after.dag.edges.contains((dependency, other)) implies is_completed(
            after.states,
            dependency,
        ) by {
            assert(data.dag.edges.contains((dependency, other)));
        }
    }
    assert forall|j: int| 0 <= j < after.handles.len() implies taken_up(
        after,
        (#[trigger] after.handles[j]).id,
    ) && is_running(after.states, after.handles[j].id) by {
        if j < data.handles.len() {
            assert(after.handles[j] == data.handles[j]);
            assert(taken_up(data, data.handles[j].id));
            assert(is_running(data.states, data.handles[j].id));
            assert(dependencies_completed(data, data.handles[j].id));
        } else {
            assert(dependencies_completed(data, id));
        }
    }
    assert forall|k: int|
        after.cursor <= k < after.queue.len() && after.states.is_pending(#[trigger] after.queue[k])
            && task_ids(after.workflow.tasks).contains(
            after.queue[k],
        ) implies dependencies_completed(after, after.queue[k]) by {
        assert(data.states.is_pending(data.queue[k]));
        assert(dependencies_completed(data, data.queue[k]));
    }
}

/// Dropping tasks at the end keeps what holds.
#[verifier::rlimit(50)]
proof fn lemma_check(data: RunDataView, now: u128)
    requires
        data_inv(data),
        all_running(data),
    ensures
        inv(check(data, now)),
{
    let tasks = data.workflow.tasks;
    let left = standing(tasks);
    law_standing(tasks, arbitrary());
    lemma_filter_members(tasks, is_standing(tasks));
    if check(data, now).phase is Ended {
        assert forall|i: int| 0 <= i < left.len() implies exists|j: int|
            0 <= j < tasks.len() && #[trigger] tasks[j] == (#[trigger] left[i]) by {
            assert(left.contains(left[i]));
            let j = choose|j: int| 0 <= j < tasks.len() && tasks[j] == left[i];
            assert(tasks[j] == left[i]);
        }
        assert(tasks_in_graph(left, data.dag)) by {
            assert forall|i: int| 0 <= i < left.len() implies data.dag.nodes.contains(
                (#[trigger] left[i]).id,
            ) by {
                let j = choose|j: int| 0 <= j < tasks.len() && #[trigger] tasks[j] == left[i];
                assert(data.dag.nodes.contains(tasks[j].id));
            }
            assert forall|i: int, dependency: Text|
                #![trigger left[i].dependencies.contains(dependency)]
                #![trigger left[i], data.dag.edges.contains((dependency, left[i].id))]
                0 <= i < left.len() implies (left[i].dependencies.contains(dependency)
                <==> data.dag.edges.contains((dependency, left[i].id))) by {
                let j = choose|j: int| 0 <= j < tasks.len() && #[trigger] tasks[j] == left[i];
                assert(tasks[j].dependencies.contains(dependency) <==> data.dag.edges.contains(
                    (dependency, tasks[j].id),
                ));
            }
        }
    }
}

/// Every step keeps what holds of a run.
#[verifier::rlimit(50)]
pub proof fn lemma_step(run: RunView, event: EventView, now: u128)
    requires
        inv(run),
    ensures
        inv(transition(run, event, now)),
{
    let data = run.data;
    if !run.saving {
        match (run.phase, event) {
            (PhaseView::Build, EventView::Done) => lemma_build(data),
            (PhaseView::Begin, EventView::Done) => lemma_same(
                data,
                RunDataView { started_at: now, ..data },
            ),
            (PhaseView::Interrupt, EventView::Interrupted { yes }) => {
                if !yes {
                    lemma_same(data, after_interrupt_check(data, yes).data);
                }
            },
            (PhaseView::Poll, EventView::Done) => lemma_poll(data, now),
            (PhaseView::Expire { id }, EventView::Done) => lemma_expire(data, id),
            (PhaseView::AskRunning { id }, EventView::Running { yes }) => lemma_after_asking(
                data,
                id,
                yes,
            ),
            (PhaseView::Process, EventView::Done) => lemma_process(data),
            (PhaseView::Wait { task }, EventView::Exited { code }) => {
                let after = after_exit(data, task, code);
                if !(after.phase is Collect) {
                    lemma_settle(data, task.id, after.data.states.status[task.id]);
                }
            },
            (PhaseView::Wait { task }, EventView::Failed { error }) => lemma_settle(
                data,
                task.id,
                TaskStatusView::Failed { error: "process terminated"@ },
            ),
            (PhaseView::Collect { task }, EventView::Done) => lemma_settle(
                data,
                task.id,
                TaskStatusView::Completed,
            ),
            (PhaseView::Collect { task }, EventView::StepFailed { text }) => {
                let after = after_collect_failure(data, task, text);
                lemma_settle(data, task.id, after.data.states.status[task.id]);
            },
            (PhaseView::Skips, EventView::Done) => lemma_skip(data),
            (PhaseView::Periodic, EventView::Done) => lemma_same(data, periodic(data, now).data),
            (PhaseView::FirePeriodic { name, batch }, EventView::Done) => lemma_after_periodic(
                data,
                name,
                now,
            ),
            (PhaseView::Ready, EventView::Done) => lemma_list_ready(data),
            (PhaseView::Dispatch, EventView::Done) => lemma_dispatch(data),
            (PhaseView::Setup { launch }, EventView::StepFailed { text }) => lemma_refuse(
                data,
                launch,
                text,
            ),
            (PhaseView::Launch { launch }, EventView::Done) => lemma_refuse(
                data,
                launch,
                crate::model::no_queue_text(launch.task.id),
            ),
            (PhaseView::Launch { launch }, EventView::Failed { error }) => lemma_refuse(
                data,
                launch,
                error.message(),
            ),
            (PhaseView::Announce { launch, batch }, EventView::Done) => lemma_take_off(
                data,
                launch,
                now,
            ),
            (PhaseView::Check, EventView::Done) => lemma_check(data, now),
            _ => {},
        }
    }
}

/// The task that is being started or settled.
pub open spec fn hand(phase: PhaseView) -> Option<Text> {
    match phase {
        PhaseView::Wait { task } => Some(task.id),
        PhaseView::Collect { task } => Some(task.id),
        PhaseView::Setup { launch } => Some(launch.task.id),
        PhaseView::Launch { launch } => Some(launch.task.id),
        PhaseView::Announce { launch, batch } => Some(launch.task.id),
        _ => None,
    }
}

/// The task that is being started.
pub open spec fn launched(phase: PhaseView) -> Option<TaskView> {
    match phase {
        PhaseView::Setup { launch } => Some(launch.task),
        PhaseView::Launch { launch } => Some(launch.task),
        PhaseView::Announce { launch, batch } => Some(launch.task),
        _ => None,
    }
}

/// Whether the graph has not been built.
pub open spec fn unbuilt(phase: PhaseView) -> bool {
    phase is LogDir || phase is Build
}

/// What a run has from the workflow that it was begun with.
pub open spec fn comes_from(run: RunView, workflow: WorkflowView) -> bool {
    &&& run.data.workflow == (WorkflowView {
        tasks: run.data.workflow.tasks,
        successors: run.data.workflow.successors,
        ..workflow
    })
    &&& forall|i: int|
        0 <= i < run.data.workflow.tasks.len() ==> workflow.tasks.contains(
            #[trigger] run.data.workflow.tasks[i],
        )
    &&& launched(run.phase) matches Some(task) ==> workflow.tasks.contains(task)
    &&& unbuilt(run.phase) ==> run.data.workflow.tasks == workflow.tasks
    &&& !unbuilt(run.phase) && !(run.phase matches PhaseView::Ended { outcome: Err(_) }) ==> {
        &&& run.data.dag.nodes == task_ids(workflow.tasks)
        &&& run.data.dag.edges == declared_edges(workflow.tasks)
        &&& run.data.workflow.successors == Some(run.data.dag.successor_map())
    }
}

/// Every step keeps what a run has from its workflow.
#[verifier::rlimit(50)]
pub proof fn lemma_comes_from(
    run: RunView,
    event: EventView,
    now: u128,
    workflow: WorkflowView,
)
    requires
        inv(run),
        comes_from(run, workflow),
    ensures
        comes_from(transition(run, event, now), workflow),
{
    let data = run.data;
    let after = transition(run, event, now);
    if !run.saving && event is Done {
        match run.phase {
            PhaseView::Build => {
                law_build_outcome(data.workflow.tasks);
            },
            PhaseView::Dispatch => {
                lemma_first_index(task_ids(data.workflow.tasks), data.queue[data.cursor]);
                assert forall|i: int| 0 <= i < after.data.workflow.tasks.len() implies
                    workflow.tasks.contains(#[trigger] after.data.workflow.tasks[i]) by {
                    if after.data.workflow.tasks != data.workflow.tasks {
                        let k = first_index(
                            task_ids(data.workflow.tasks),
                            data.queue[data.cursor],
                        )->0;
                        let j = if i < k { i } else { i + 1 };
                        assert(after.data.workflow.tasks[i] == data.workflow.tasks[j]);
                    }
                }
            },
            PhaseView::Check => {
                let tasks = data.workflow.tasks;
                lemma_filter_members(tasks, is_standing(tasks));
                assert forall|i: int| 0 <= i < after.data.workflow.tasks.len() implies
                    workflow.tasks.contains(#[trigger] after.data.workflow.tasks[i]) by {
                    assert(after.data.workflow.tasks.contains(after.data.workflow.tasks[i]));
                    let j = choose|j: int|
                        0 <= j < tasks.len() && tasks[j] == after.data.workflow.tasks[i];
                    assert(workflow.tasks.contains(tasks[j]));
                }
            },
            _ => {},
        }
    }
}

/// Every running task is in flight or in hand, and every pending task of the graph is
/// still to be taken up.
pub open spec fn accounted(run: RunView) -> bool {
    if unbuilt(run.phase) {
        forall|id: Text| !#[trigger] is_running(run.data.states, id)
    } else if run.phase is TerminateAll || run.phase is Ended {
        true
    } else {
        &&& forall|id: Text| #[trigger]
            is_running(run.data.states, id) ==> handle_ids(run.data.handles).contains(id) || hand(
                run.phase,
            ) == Some(id)
        &&& forall|id: Text|
            run.data.dag.nodes.contains(id) && #[trigger] run.data.states.is_pending(id)
                ==> task_ids(run.data.workflow.tasks).contains(id)
    }
}

/// Every step keeps account of running and pending tasks.
#[verifier::rlimit(50)]
pub proof fn lemma_accounted(run: RunView, event: EventView, now: u128)
    requires
        inv(run),
        accounted(run),
    ensures
        accounted(transition(run, event, now)),
{
    let data = run.data;
    let after = transition(run, event, now);
    if !run.saving {
        match (run.phase, event) {
            (PhaseView::Build, EventView::Done) => {
                law_build_outcome(data.workflow.tasks);
                if let Ok(dag) = build_outcome(data.workflow.tasks) {
                    lemma_with_pending(data.states, dag.nodes);
                    assert forall|id: Text| !#[trigger] is_running(after.data.states, id) by {
                        assert(!is_running(data.states, id));
                    }
                }
            },
            (PhaseView::Process, EventView::Done) => {
                if data.cursor < data.queue.len() {
                    let ids = handle_ids(data.handles);
                    let id = data.queue[data.cursor];
                    lemma_first_index(ids, id);
                    if let Some(i) = first_index(ids, id) {
                        assert(handle_ids(after.data.handles) =~= ids.remove(i));
                        assert forall|other: Text| #[trigger]
                            is_running(after.data.states, other) implies handle_ids(
                            after.data.handles,
                        ).contains(other) || hand(after.phase) == Some(other) by {
                            assert(is_running(data.states, other));
                            let j = choose|j: int| 0 <= j < ids.len() && ids[j] == other;
                            if j != i {
                                let k = if j < i { j } else { j - 1 };
                                assert(ids.remove(i)[k] == other);
                            }
                        }
                    }
                }
            },
            (PhaseView::Skips, EventView::Done) => {
                assert forall|id: Text| #[trigger] is_running(after.data.states, id) implies
                    handle_ids(after.data.handles).contains(id) by {
                    assert(is_running(data.states, id));
                }
                assert forall|id: Text|
                    after.data.dag.nodes.contains(id) && #[trigger] after.data.states.is_pending(
                        id,
                    ) implies task_ids(after.data.workflow.tasks).contains(id) by {
                    assert(data.states.is_pending(id));
                }
            },
            (PhaseView::FirePeriodic { name, batch }, EventView::Done) => {
                assert(handle_ids(after.data.handles) =~= handle_ids(data.handles));
            },
            (PhaseView::Dispatch, EventView::Done) => {
                if data.cursor < data.queue.len() {
                    let ids = task_ids(data.workflow.tasks);
                    let id = data.queue[data.cursor];
                    lemma_first_index(ids, id);
                    if after.data.workflow.tasks != data.workflow.tasks {
                        let i = first_index(ids, id)->0;
                        assert(task_ids(after.data.workflow.tasks) =~= ids.remove(i));
                        assert forall|other: Text|
                            after.data.dag.nodes.contains(other) && #[trigger]
                                after.data.states.is_pending(other) implies task_ids(
                            after.data.workflow.tasks,
                        ).contains(other) by {
                            assert(data.states.is_pending(other));
                            let j = choose|j: int| 0 <= j < ids.len() && ids[j] == other;
                            let k = if j < i { j } else { j - 1 };
                            assert(ids.remove(i)[k] == other);
                        }
                        assert forall|other: Text| #[trigger]
                            is_running(after.data.states, other) implies handle_ids(
                            after.data.handles,
                        ).contains(other) || hand(after.phase) == Some(other) by {
                            if other != id {
                                assert(is_running(data.states, other));
                            }
                        }
                    }
                }
            },
            (PhaseView::Announce { launch, batch }, EventView::Done) => {
                let ids = handle_ids(data.handles);
                assert(handle_ids(after.data.handles) =~= ids.push(launch.task.id));
                assert forall|other: Text| #[trigger] is_running(after.data.states, other) implies
                    handle_ids(after.data.handles).contains(other) by {
                    assert(is_running(data.states, other));
                    lemma_push_contains(ids, launch.task.id, other);
                }
            },
            _ => {
                if after.data.states != data.states && !(after.phase is TerminateAll) {
                    assert forall|other: Text| #[trigger]
                        is_running(after.data.states, other) implies handle_ids(
                        after.data.handles,
                    ).contains(other) || hand(after.phase) == Some(other) by {
                        assert(is_running(data.states, other));
                    }
                    assert forall|other: Text|
                        after.data.dag.nodes.contains(other) && #[trigger]
                            after.data.states.is_pending(other) implies task_ids(
                        after.data.workflow.tasks,
                    ).contains(other) by {
                        assert(data.states.is_pending(other));
                    }
                }
            },
        }
    }
}

} // verus!
