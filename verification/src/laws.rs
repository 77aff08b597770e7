//! What every run of every workflow keeps to.

use crate::dag::{is_done, law_successors_by_edges, ranked};
use crate::error::WorkflowErrorView;
use crate::history::{
    has_reason, idle, is_blocked, is_fresh, is_left_of, is_settled, is_stopped, is_trouble,
    is_untaken, kept, lemma_end_is_settled, lemma_idle, lemma_kept, lemma_reasoned,
    lemma_terminal_step, lemma_told_by_status, reasoned, told_by_status,
};
use crate::lists::lemma_filter_members;
use crate::model::{
    action_of, expired, handle_ids, initial, transition, PhaseView, RunDataView, RunView,
};
use crate::protocol::{ActionView, EventView};
use crate::reachable::{
    accounted, comes_from, inv, is_completed, is_running, lemma_accounted, lemma_comes_from,
    lemma_initial, lemma_set_all, lemma_step,
};
use crate::remains::{is_standing, law_standing};
use crate::skips::{blocks, left_out, with_skips};
use crate::state::{TaskStatesView, TaskStatusView};
use crate::summary::{all_done, failed_ids, lemma_ids_with, summary};
use crate::task::{task_ids, TaskView};
use crate::text::{first_index, lemma_first_index, Text};
use crate::workflow::{build_outcome, lemma_declared_edges, WorkflowView};
use vstd::prelude::*;

verus! {

/// Where a run has come to after a number of events, each with the time at which it
/// was told.
pub open spec fn after(run: RunView, events: Seq<(EventView, u128)>) -> RunView
    decreases events.len(),
{
    if events.len() == 0 {
        run
    } else {
        transition(after(run, events.drop_last()), events.last().0, events.last().1)
    }
}

/// Whether a run asks for something to be done that is part of starting a task.
pub open spec fn asks_to_start(run: RunView, id: Text) -> bool {
    match action_of(run) {
        ActionView::RunSetup { id: other, workdir } => other == id,
        ActionView::Spawn { id: other, workdir, command, args, env } => other == id,
        ActionView::Submit { id: other, workdir, log_dir } => other == id,
        _ => false,
    }
}

/// Whatever happens, what holds of a run at its beginning holds of it for ever.
pub proof fn law_reachable(
    workflow: WorkflowView,
    states: TaskStatesView,
    events: Seq<(EventView, u128)>,
)
    requires
        workflow.wf(),
        states.wf(),
    ensures
        inv(after(initial(workflow, states), events)),
        comes_from(after(initial(workflow, states), events), workflow),
    decreases events.len(),
{
    lemma_initial(workflow, states);
    if events.len() == 0 {
        assert forall|i: int| 0 <= i < workflow.tasks.len() implies workflow.tasks.contains(
            #[trigger] workflow.tasks[i],
        ) by {}
    } else {
        let rest = events.drop_last();
        law_reachable(workflow, states, rest);
        let before = after(initial(workflow, states), rest);
        lemma_step(before, events.last().0, events.last().1);
        lemma_comes_from(before, events.last().0, events.last().1, workflow);
    }
}

/// Never are more tasks in flight than the workflow allows, and a task is only started
/// when fewer are.
pub proof fn law_capacity(
    workflow: WorkflowView,
    states: TaskStatesView,
    events: Seq<(EventView, u128)>,
)
    requires
        workflow.wf(),
        states.wf(),
    ensures
        ({
            let run = after(initial(workflow, states), events);
            &&& run.data.handles.len() <= workflow.max_parallel
            &&& forall|id: Text| #[trigger]
                asks_to_start(run, id) ==> run.data.handles.len() < workflow.max_parallel
        }),
{
    law_reachable(workflow, states, events);
}

/// A task is started only when every task that it depends on has completed.
pub proof fn law_dependencies_first(
    workflow: WorkflowView,
    states: TaskStatesView,
    events: Seq<(EventView, u128)>,
    task: TaskView,
    dependency: Text,
)
    requires
        workflow.wf(),
        states.wf(),
        workflow.tasks.contains(task),
        task.dependencies.contains(dependency),
        asks_to_start(after(initial(workflow, states), events), task.id),
    ensures
        is_completed(after(initial(workflow, states), events).data.states, dependency),
{
    let run = after(initial(workflow, states), events);
    law_reachable(workflow, states, events);
    let launch = match run.phase {
        PhaseView::Setup { launch } => launch,
        PhaseView::Launch { launch } => launch,
        _ => arbitrary(),
    };
    let ids = task_ids(workflow.tasks);
    let i = choose|i: int| 0 <= i < workflow.tasks.len() && workflow.tasks[i] == task;
    let j = choose|j: int| 0 <= j < workflow.tasks.len() && workflow.tasks[j] == launch.task;
    assert(ids[i] == ids[j]);
    assert(launch.task.dependencies.contains(dependency));
}

/// A task that has come to an end, or was left out, keeps its status to the end of the
/// run.
pub proof fn law_terminal_is_final(
    run: RunView,
    events: Seq<(EventView, u128)>,
    id: Text,
)
    requires
        inv(run),
        run.data.states.status.contains_key(id),
        run.data.states.status[id].terminal(),
    ensures
        after(run, events).data.states.get(id) == run.data.states.get(id),
    decreases events.len(),
{
    if events.len() > 0 {
        let rest = events.drop_last();
        let before = after(run, rest);
        law_terminal_is_final(run, rest, id);
        lemma_after_inv(run, rest);
        lemma_terminal_step(before, events.last().0, events.last().1, id);
    }
}

/// What holds of a run goes on to hold of it.
proof fn lemma_after_inv(run: RunView, events: Seq<(EventView, u128)>)
    requires
        inv(run),
    ensures
        inv(after(run, events)),
    decreases events.len(),
{
    if events.len() > 0 {
        let rest = events.drop_last();
        lemma_after_inv(run, rest);
        lemma_step(after(run, rest), events.last().0, events.last().1);
    }
}

/// A task that is not pending when the run begins is not started, and keeps its status:
/// a run that takes up the statuses of an earlier one goes on where that one stopped.
pub proof fn law_resume(
    workflow: WorkflowView,
    states: TaskStatesView,
    events: Seq<(EventView, u128)>,
    id: Text,
)
    requires
        workflow.wf(),
        states.wf(),
        !is_fresh(states, id),
    ensures
        !asks_to_start(after(initial(workflow, states), events), id),
        after(initial(workflow, states), events).data.states.get(id) == states.get(id),
{
    lemma_after_kept(workflow, states, events, id);
    law_reachable(workflow, states, events);
}

/// A task that was not pending when the run began has not been taken up.
proof fn lemma_after_kept(
    workflow: WorkflowView,
    states: TaskStatesView,
    events: Seq<(EventView, u128)>,
    id: Text,
)
    requires
        workflow.wf(),
        states.wf(),
        !is_fresh(states, id),
    ensures
        kept(after(initial(workflow, states), events), id, states.status[id]),
    decreases events.len(),
{
    if events.len() > 0 {
        let rest = events.drop_last();
        lemma_after_kept(workflow, states, rest, id);
        law_reachable(workflow, states, rest);
        lemma_kept(
            after(initial(workflow, states), rest),
            events.last().0,
            events.last().1,
            id,
            states.status[id],
        );
    }
}

/// Whether a task has been taken up and is not being started any more.
pub open spec fn is_past_start(run: RunView, id: Text) -> bool {
    &&& !task_ids(run.data.workflow.tasks).contains(id)
    &&& match run.phase {
        PhaseView::Setup { launch } => launch.task.id != id,
        PhaseView::Launch { launch } => launch.task.id != id,
        _ => true,
    }
}

/// What a step takes up was still to be taken up.
#[verifier::rlimit(50)]
proof fn lemma_taken_up_before(run: RunView, event: EventView, now: u128, id: Text)
    requires
        !task_ids(run.data.workflow.tasks).contains(id),
    ensures
        ({
            let next = transition(run, event, now);
            &&& !task_ids(next.data.workflow.tasks).contains(id)
            &&& next.phase matches PhaseView::Setup { launch } ==> (launch.task.id == id
                ==> run.phase == next.phase)
            &&& next.phase matches PhaseView::Launch { launch } ==> (launch.task.id == id
                ==> run.phase == next.phase || run.phase == (PhaseView::Setup { launch }))
        }),
{
    let next = transition(run, event, now);
    let ids = task_ids(run.data.workflow.tasks);
    if run.phase is Check {
        let tasks = run.data.workflow.tasks;
        let left = next.data.workflow.tasks;
        lemma_filter_members(tasks, is_standing(tasks));
        if task_ids(left).contains(id) {
            let k = choose|k: int| 0 <= k < left.len() && task_ids(left)[k] == id;
            if left != tasks {
                assert(left.contains(left[k]));
                let j = choose|j: int| 0 <= j < tasks.len() && tasks[j] == left[k];
                assert(ids[j] == id);
            }
        }
    }
    if run.phase is Dispatch {
        let other = run.data.queue[run.data.cursor];
        lemma_first_index(ids, other);
        if next.data.workflow.tasks != run.data.workflow.tasks {
            let i = first_index(ids, other)->0;
            assert(task_ids(next.data.workflow.tasks) =~= ids.remove(i));
            if ids.remove(i).contains(id) {
                let j = choose|j: int| 0 <= j < ids.remove(i).len() && ids.remove(i)[j] == id;
                let k = if j < i { j } else { j + 1 };
                assert(ids[k] == id);
            }
            assert(ids[i] == other);
        }
        if let Some(i) = first_index(ids, other) {
            assert(ids[i] == run.data.workflow.tasks[i].id);
        }
    }
}

/// A task is started at most once in a run: once it has been taken up and is not being
/// started any more, no further event has it started.
pub proof fn law_started_once(run: RunView, events: Seq<(EventView, u128)>, id: Text)
    requires
        is_past_start(run, id),
    ensures
        is_past_start(after(run, events), id),
        !asks_to_start(after(run, events), id),
    decreases events.len(),
{
    if events.len() > 0 {
        let rest = events.drop_last();
        law_started_once(run, rest, id);
        lemma_taken_up_before(after(run, rest), events.last().0, events.last().1, id);
    }
}

/// Once the start of a task has been answered, or the step before it has failed, the
/// task is past its start. Where that step has succeeded, the start is what comes next.
pub proof fn law_start_is_consumed(run: RunView, event: EventView, now: u128, id: Text)
    requires
        inv(run),
        asks_to_start(run, id),
        transition(run, event, now) != run,
    ensures
        run.phase is Launch || event is StepFailed ==> is_past_start(
            transition(run, event, now),
            id,
        ),
        run.phase is Setup && !(event is StepFailed) ==> event is Done && transition(
            run,
            event,
            now,
        ).phase == (PhaseView::Launch { launch: run.phase->Setup_launch }),
{
}

/// Whether a run asks for the step before the start of a task.
pub open spec fn asks_for_setup(run: RunView, id: Text) -> bool {
    action_of(run) matches ActionView::RunSetup { id: other, workdir } && other == id
}

/// The step before the start of a task is asked for at most once: when it has been
/// answered, no further event has it asked for again.
pub proof fn law_setup_once(
    run: RunView,
    event: EventView,
    now: u128,
    events: Seq<(EventView, u128)>,
    id: Text,
)
    requires
        inv(run),
        asks_for_setup(run, id),
        transition(run, event, now) != run,
    ensures
        !asks_for_setup(after(transition(run, event, now), events), id),
{
    lemma_past_setup(transition(run, event, now), events, id);
}

/// What has been taken up and is past its setup stays so.
proof fn lemma_past_setup(run: RunView, events: Seq<(EventView, u128)>, id: Text)
    requires
        !task_ids(run.data.workflow.tasks).contains(id),
        !(run.phase matches PhaseView::Setup { launch } && launch.task.id == id),
    ensures
        !task_ids(after(run, events).data.workflow.tasks).contains(id),
        !(after(run, events).phase matches PhaseView::Setup { launch } && launch.task.id == id),
    decreases events.len(),
{
    if events.len() > 0 {
        let rest = events.drop_last();
        lemma_past_setup(run, rest, id);
        lemma_taken_up_before(after(run, rest), events.last().0, events.last().1, id);
    }
}

/// A run ends with a summary only when nothing is in flight and every task of the
/// workflow has come to an end; the summary then names every task exactly once: as
/// succeeded if it has completed, as failed if it has failed, and as skipped if it was
/// left out.
pub proof fn law_summary_is_complete(
    workflow: WorkflowView,
    states: TaskStatesView,
    events: Seq<(EventView, u128)>,
    id: Text,
)
    requires
        workflow.wf(),
        states.wf(),
        after(initial(workflow, states), events).phase matches PhaseView::Ended { outcome: Ok(_) },
        task_ids(workflow.tasks).contains(id),
    ensures
        ({
            let run = after(initial(workflow, states), events);
            let end = run.data.states;
            let s = run.phase->outcome->Ok_0;
            &&& run.data.handles.len() == 0
            &&& end.status.contains_key(id)
            &&& !(end.status[id] is Pending) && !(end.status[id] is Running)
            &&& s.succeeded.no_duplicates() && s.skipped.no_duplicates()
            &&& forall|i: int, j: int|
                0 <= i < j < s.failed.len() ==> (#[trigger] s.failed[i]).id != (
                #[trigger] s.failed[j]).id
            &&& s.succeeded.contains(id) <==> end.status[id] is Completed
            &&& s.skipped.contains(id) <==> end.status[id] is Skipped
                || end.status[id] is SkippedDueToDependencyFailure
            &&& (exists|i: int| 0 <= i < s.failed.len() && (#[trigger] s.failed[i]).id == id)
                <==> end.status[id] is Failed
            &&& forall|i: int|
                0 <= i < s.failed.len() && (#[trigger] s.failed[i]).id == id ==> end.status[id] == (
                TaskStatusView::Failed { error: s.failed[i].error })
        }),
{
    let run = after(initial(workflow, states), events);
    law_reachable(workflow, states, events);
    let end = run.data.states;
    let s = run.phase->outcome->Ok_0;
    let nodes = run.data.dag.nodes;
    let i = choose|i: int| 0 <= i < nodes.len() && nodes[i] == id;
    assert(end.status.contains_key(nodes[i]));
    lemma_ids_with(end, |status: TaskStatusView| status is Completed);
    lemma_ids_with(end, |status: TaskStatusView| status is Failed);
    lemma_ids_with(
        end,
        |status: TaskStatusView| status is Skipped || status is SkippedDueToDependencyFailure,
    );
    let failed = failed_ids(end);
    assert forall|k: int| 0 <= k < s.failed.len() implies (#[trigger] s.failed[k]).id == failed[k]
        && s.failed[k].error == end.status[failed[k]]->error by {}
    if end.status[id] is Failed {
        assert(failed.contains(id));
        let k = choose|k: int| 0 <= k < failed.len() && failed[k] == id;
        assert(s.failed[k].id == id);
    }
    assert forall|k: int| 0 <= k < s.failed.len() && (#[trigger] s.failed[k]).id == id implies
        end.status[id] == (TaskStatusView::Failed { error: s.failed[k].error }) by {
        assert(failed.contains(failed[k]));
    }
}

/// An interrupt ends the run: what was in flight is terminated and waits again, no
/// other status changes, nothing is started, and once the statuses have been stored
/// the run has ended with the error `Interrupted`.
pub proof fn law_interrupt(run: RunView, at: u128, id: Text)
    requires
        inv(run),
        run.phase is Interrupt,
        !run.saving,
    ensures
        ({
            let stopped = transition(run, EventView::Interrupted { yes: true }, at);
            let terminated = transition(stopped, EventView::Done, at);
            let ended = transition(terminated, EventView::Done, at);
            &&& action_of(run) == ActionView::CheckInterrupt
            &&& action_of(stopped) == (ActionView::TerminateAll {
                ids: handle_ids(run.data.handles),
            })
            &&& action_of(terminated) is Save
            &&& action_of(ended) is Finish
            &&& ended.phase == (PhaseView::Ended {
                outcome: Err(WorkflowErrorView::Interrupted),
            })
            &&& ended.data.workflow == run.data.workflow
            &&& handle_ids(run.data.handles).contains(id) ==> ended.data.states.is_pending(id)
            &&& !handle_ids(run.data.handles).contains(id) ==> ended.data.states.get(id)
                == run.data.states.get(id)
        }),
{
    let ids = handle_ids(run.data.handles);
    lemma_set_all(run.data.states, ids, TaskStatusView::Pending);
    let states = run.data.states.set_all(ids, TaskStatusView::Pending);
    assert(states.status.contains_key(id) <==> run.data.states.status.contains_key(id)
        || ids.contains(id));
}

/// A run that has ended stays as it is.
pub proof fn law_end_is_final(run: RunView, events: Seq<(EventView, u128)>)
    requires
        run.phase is Ended,
        !run.saving,
    ensures
        after(run, events) == run,
    decreases events.len(),
{
    if events.len() > 0 {
        law_end_is_final(run, events.drop_last());
    }
}

/// Statuses that cannot be stored end the run with the error.
pub proof fn law_failed_save_ends(
    run: RunView,
    error: WorkflowErrorView,
    now: u128,
)
    requires
        action_of(run) is Save,
    ensures
        ({
            let ended = transition(run, EventView::Failed { error }, now);
            &&& ended.phase == (PhaseView::Ended { outcome: Err(error) })
            &&& action_of(ended) is Finish
            &&& ended.data == run.data
        }),
{
}

/// Where no task was running at the beginning, every task that has the status
/// `Running` is in flight or in hand, until the run is interrupted or ends.
pub proof fn law_running_is_in_flight(
    workflow: WorkflowView,
    states: TaskStatesView,
    events: Seq<(EventView, u128)>,
)
    requires
        workflow.wf(),
        states.wf(),
        forall|id: Text| !#[trigger] is_running(states, id),
    ensures
        accounted(after(initial(workflow, states), events)),
    decreases events.len(),
{
    if events.len() > 0 {
        let rest = events.drop_last();
        law_running_is_in_flight(workflow, states, rest);
        law_reachable(workflow, states, rest);
        lemma_accounted(
            after(initial(workflow, states), rest),
            events.last().0,
            events.last().1,
        );
    }
}

/// A run does not get stuck: when it lists the ready tasks while nothing is in flight
/// and not all is done, the list holds a pending task that can be taken up.
pub proof fn law_no_deadlock(run: RunView, now: u128) -> (id: Text)
    requires
        inv(run),
        accounted(run),
        run.phase is Ready,
        !run.saving,
        run.data.handles.len() == 0,
        !all_done(run.data.dag, run.data.states),
    ensures
        ({
            let next = transition(run, EventView::Done, now);
            &&& next.phase is Dispatch
            &&& next.data.queue.contains(id)
            &&& next.data.states.is_pending(id)
            &&& task_ids(next.data.workflow.tasks).contains(id)
        }),
{
    let data = run.data;
    let nodes = data.dag.nodes;
    let edges = data.dag.edges;
    let rank = choose|rank: spec_fn(Text) -> nat| #[trigger] ranked(edges, rank);
    let some = choose|i: int|
        0 <= i < nodes.len() && !(data.states.status.contains_key(#[trigger] nodes[i])
            && data.states.status[nodes[i]].terminal());
    let low = lemma_lowest_open(data, rank, some);
    let id = nodes[low];
    assert(nodes.contains(id));
    assert(data.states.status.contains_key(id));
    if is_running(data.states, id) {
        assert(handle_ids(data.handles).contains(id));
        assert(handle_ids(data.handles).len() == 0);
    }
    assert(data.states.is_pending(id));
    let tasks = data.workflow.tasks;
    let i = choose|i: int| 0 <= i < task_ids(tasks).len() && task_ids(tasks)[i] == id;
    assert(tasks[i].id == id);
    assert forall|dependency: Text| #[trigger] edges.contains((dependency, id)) implies is_done(
        data.states,
        dependency,
    ) by {
        let k = choose|k: int| 0 <= k < edges.len() && edges[k] == (dependency, id);
        assert(rank(edges[k].0) < rank(edges[k].1));
        assert(nodes.contains(edges[k].0));
        let j = choose|j: int| 0 <= j < nodes.len() && nodes[j] == dependency;
        assert(rank(nodes[j]) < rank(nodes[low]));
        assert(tasks[i].dependencies.contains(dependency));
        assert(!blocks(data.states, dependency));
    }
    let ready = |id: Text| data.dag.is_ready(data.states, id);
    lemma_filter_members(nodes, ready);
    assert(nodes.filter(ready).contains(id));
    id
}

/// Among the tasks that have not come to an end, one has the lowest rank.
proof fn lemma_lowest_open(data: RunDataView, rank: spec_fn(Text) -> nat, some: int) -> (low: int)
    requires
        0 <= some < data.dag.nodes.len(),
        !(data.states.status.contains_key(data.dag.nodes[some])
            && data.states.status[data.dag.nodes[some]].terminal()),
    ensures
        0 <= low < data.dag.nodes.len(),
        !(data.states.status.contains_key(data.dag.nodes[low])
            && data.states.status[data.dag.nodes[low]].terminal()),
        forall|j: int|
            0 <= j < data.dag.nodes.len() && rank(#[trigger] data.dag.nodes[j]) < rank(
                data.dag.nodes[low],
            ) ==> data.states.status.contains_key(data.dag.nodes[j])
                && data.states.status[data.dag.nodes[j]].terminal(),
    decreases rank(data.dag.nodes[some]),
{
    let nodes = data.dag.nodes;
    if exists|j: int|
        0 <= j < nodes.len() && rank(#[trigger] nodes[j]) < rank(nodes[some]) && !(
        data.states.status.contains_key(nodes[j]) && data.states.status[nodes[j]].terminal()) {
        let j = choose|j: int|
            0 <= j < nodes.len() && rank(#[trigger] nodes[j]) < rank(nodes[some]) && !(
            data.states.status.contains_key(nodes[j]) && data.states.status[nodes[j]].terminal());
        lemma_lowest_open(data, rank, j)
    } else {
        some
    }
}

/// A process is only waited for, and results are only collected, while the task has the
/// status `Running`: a task that failed because its time was up is not waited for.
pub proof fn law_settled_once(
    workflow: WorkflowView,
    states: TaskStatesView,
    events: Seq<(EventView, u128)>,
    id: Text,
)
    requires
        workflow.wf(),
        states.wf(),
        ({
            let action = action_of(after(initial(workflow, states), events));
            ||| action == (ActionView::Wait { id })
            ||| action matches ActionView::RunCollect { id: other, workdir, policy } && other == id
        }),
    ensures
        is_running(after(initial(workflow, states), events).data.states, id),
{
    law_reachable(workflow, states, events);
}

/// A task whose time is up when it is polled is terminated and fails, and the
/// statuses are stored.
pub proof fn law_timeout(run: RunView, now: u128, later: u128)
    requires
        run.phase is Poll,
        !run.saving,
        0 <= run.data.cursor < run.data.handles.len(),
        expired(run.data.handles[run.data.cursor], now),
    ensures
        ({
            let id = run.data.handles[run.data.cursor].id;
            let stopped = transition(run, EventView::Done, now);
            let failed = transition(stopped, EventView::Done, later);
            &&& action_of(stopped) == (ActionView::Terminate { id })
            &&& action_of(failed) is Save
            &&& failed.data.states.get(id) == Some(
                TaskStatusView::Failed { error: WorkflowErrorView::TaskTimeout(id).message() },
            )
            &&& failed.data.queue.contains(id)
        }),
{
    let id = run.data.handles[run.data.cursor].id;
    let queue = run.data.queue.push(id);
    assert(queue[queue.len() - 1] == id);
}

/// The statuses that were last stored, where those that a run begins with are stored.
pub open spec fn stored(run: RunView, events: Seq<(EventView, u128)>) -> TaskStatesView
    decreases events.len(),
{
    if events.len() == 0 {
        run.data.states
    } else {
        let before = after(run, events.drop_last());
        if action_of(before) is Save && events.last().0 is Done {
            before.data.states
        } else {
            stored(run, events.drop_last())
        }
    }
}

/// Whether the run is at a point at which what is stored has to be up to date.
pub open spec fn is_between_steps(run: RunView) -> bool {
    !run.saving && match run.phase {
        PhaseView::Settle { batch } => false,
        PhaseView::TerminateAll => false,
        PhaseView::Dispatch => !run.data.dispatched,
        PhaseView::Setup { launch } => false,
        PhaseView::Launch { launch } => false,
        PhaseView::Announce { launch, batch } => false,
        PhaseView::Ended { outcome } => outcome is Ok,
        _ => true,
    }
}

/// What is stored is what the run holds, except while a task is being settled or tasks
/// are being started: so it is in every round when the round begins and ends, and when
/// the run has ended with a summary.
#[verifier::rlimit(50)]
pub proof fn law_stored(
    workflow: WorkflowView,
    states: TaskStatesView,
    events: Seq<(EventView, u128)>,
)
    ensures
        ({
            let begin = initial(workflow, states);
            is_between_steps(after(begin, events)) ==> stored(begin, events) == after(
                begin,
                events,
            ).data.states
        }),
    decreases events.len(),
{
    if events.len() > 0 {
        let begin = initial(workflow, states);
        let rest = events.drop_last();
        let before = after(begin, rest);
        law_stored(workflow, states, rest);
        if before.phase is Skips && events.last().0 is Done && !before.saving {
            let data = before.data;
            if !(exists|id: Text| left_out(data.dag.nodes, data.states, data.workflow.tasks, id)) {
                assert(with_skips(data.dag.nodes, data.states, data.workflow.tasks).status
                    =~= data.states.status);
            }
        }
    }
}

/// A workflow that has been run, with a run that ended with a summary, has nothing to do
/// when it is run again from the statuses that the run ended with. No status changes and
/// no task is dropped, nothing is started, collected or waited for, no hook is run, a
/// summary is that of the same statuses, and the run fails only where something outside
/// fails or interrupts it.
#[verifier::rlimit(50)]
pub proof fn law_second_run(
    workflow: WorkflowView,
    states: TaskStatesView,
    events: Seq<(EventView, u128)>,
    again: Seq<(EventView, u128)>,
)
    requires
        workflow.wf(),
        states.wf(),
        after(initial(workflow, states), events).phase matches PhaseView::Ended { outcome: Ok(_) },
    ensures
        ({
            let end = after(initial(workflow, states), events).data;
            let second = after(initial(end.workflow, end.states), again);
            let action = action_of(second);
            &&& build_outcome(end.workflow.tasks) is Ok
            &&& second.data.states == end.states
            &&& second.data.workflow.tasks == end.workflow.tasks
            &&& forall|id: Text| !#[trigger] asks_to_start(second, id)
            &&& !(action is Wait) && !(action is RunCollect) && !(action is FireHooks)
            &&& second.phase matches PhaseView::Ended { outcome: Ok(s) } ==> s == summary(
                end.states,
                s.duration_nanos,
            )
            &&& second.phase matches PhaseView::Ended { outcome: Err(_) } ==> exists|k: int|
                0 <= k < again.len() && is_trouble((#[trigger] again[k]).0)
        }),
{
    let end = after(initial(workflow, states), events).data;
    lemma_end(workflow, states, events);
    lemma_after_idle(end.workflow, end.states, again);
}

/// A run that has ended with a summary leaves tasks that have all come to an end.
proof fn lemma_end(workflow: WorkflowView, states: TaskStatesView, events: Seq<(EventView, u128)>)
    requires
        workflow.wf(),
        states.wf(),
        after(initial(workflow, states), events).phase matches PhaseView::Ended { outcome: Ok(_) },
    ensures
        ({
            let end = after(initial(workflow, states), events).data;
            is_settled(end.workflow.tasks, end.states)
        }),
{
    law_reachable(workflow, states, events);
    lemma_end_is_settled(after(initial(workflow, states), events));
}

/// A run that begins with nothing to do goes on so.
proof fn lemma_after_idle(
    workflow: WorkflowView,
    states: TaskStatesView,
    events: Seq<(EventView, u128)>,
)
    requires
        is_settled(workflow.tasks, states),
    ensures
        idle(after(initial(workflow, states), events), workflow.tasks, states),
        is_stopped(after(initial(workflow, states), events)) ==> exists|k: int|
            0 <= k < events.len() && is_trouble((#[trigger] events[k]).0),
    decreases events.len(),
{
    if events.len() > 0 {
        let rest = events.drop_last();
        let before = after(initial(workflow, states), rest);
        lemma_after_idle(workflow, states, rest);
        lemma_idle(before, events.last().0, events.last().1, workflow.tasks, states);
        if is_stopped(after(initial(workflow, states), events)) {
            if is_stopped(before) {
                let k = choose|k: int| 0 <= k < rest.len() && is_trouble((#[trigger] rest[k]).0);
                assert(events[k] == rest[k]);
            } else {
                assert(events[events.len() - 1] == events.last());
            }
        }
    }
}

/// The answer to an action where nothing fails and there is no interrupt, in a run that
/// asks for no process.
pub open spec fn plain_answer(action: ActionView) -> EventView {
    if action is CheckInterrupt {
        EventView::Interrupted { yes: false }
    } else {
        EventView::Done
    }
}

/// Whether every event is the plain answer to the action that was due.
#[verifier::opaque]
pub open spec fn plainly_answered(run: RunView, events: Seq<(EventView, u128)>) -> bool {
    forall|k: int|
        0 <= k < events.len() ==> (#[trigger] events[k]).0 == plain_answer(
            action_of(after(run, events.take(k))),
        )
}

/// How many answers a run with nothing to do waits for, at most, until it is over: one
/// for each task, and those of a single round.
pub open spec fn answers_left(run: RunView) -> int {
    let n = run.data.workflow.tasks.len() as int;
    match run.phase {
        PhaseView::LogDir => n + 12,
        PhaseView::Build => n + 11,
        PhaseView::Begin => if run.saving {
            n + 10
        } else {
            n + 9
        },
        PhaseView::Interrupt => n + 8,
        PhaseView::Poll => n + 7,
        PhaseView::Process => n + 6,
        PhaseView::Skips => n + 5,
        PhaseView::Periodic => n + 4,
        PhaseView::Ready => n + 3,
        PhaseView::Dispatch => run.data.queue.len() - run.data.cursor + 2,
        PhaseView::Check => 1,
        _ => 0,
    }
}

/// A workflow that is run again after a run that ended with a summary ends with the
/// summary of the same statuses, after no more answers than it takes to see that there
/// is nothing to do, if nothing outside fails or interrupts it.
pub proof fn law_second_run_ends(
    workflow: WorkflowView,
    states: TaskStatesView,
    events: Seq<(EventView, u128)>,
    again: Seq<(EventView, u128)>,
)
    requires
        workflow.wf(),
        states.wf(),
        after(initial(workflow, states), events).phase matches PhaseView::Ended { outcome: Ok(_) },
        ({
            let end = after(initial(workflow, states), events).data;
            let second = initial(end.workflow, end.states);
            plainly_answered(second, again) && again.len() >= answers_left(second)
        }),
    ensures
        ({
            let end = after(initial(workflow, states), events).data;
            let second = after(initial(end.workflow, end.states), again);
            &&& action_of(second) is Finish
            &&& second.phase matches PhaseView::Ended { outcome: Ok(s) } && s == summary(
                end.states,
                s.duration_nanos,
            )
        }),
{
    let end = after(initial(workflow, states), events).data;
    lemma_end(workflow, states, events);
    lemma_idle_ends(end.workflow, end.states, again);
}

/// A run with nothing to do ends with a summary.
#[verifier::rlimit(50)]
proof fn lemma_idle_ends(
    workflow: WorkflowView,
    states: TaskStatesView,
    events: Seq<(EventView, u128)>,
)
    requires
        is_settled(workflow.tasks, states),
        plainly_answered(initial(workflow, states), events),
        events.len() >= answers_left(initial(workflow, states)),
    ensures
        ({
            let run = after(initial(workflow, states), events);
            &&& action_of(run) is Finish
            &&& run.phase matches PhaseView::Ended { outcome: Ok(s) } && s == summary(
                states,
                s.duration_nanos,
            )
        }),
{
    lemma_answers_left(workflow, states, events);
}

/// A plain answer brings a run with nothing to do nearer to its end.
#[verifier::rlimit(50)]
proof fn lemma_plain_step(run: RunView, now: u128, tasks: Seq<TaskView>, states: TaskStatesView)
    requires
        idle(run, tasks, states),
        !is_stopped(run),
    ensures
        ({
            let next = transition(run, plain_answer(action_of(run)), now);
            &&& idle(next, tasks, states)
            &&& !is_stopped(next)
            &&& 0 <= answers_left(next)
            &&& answers_left(next) == 0 || answers_left(next) < answers_left(run)
        }),
{
    lemma_idle(run, plain_answer(action_of(run)), now, tasks, states);
}

/// Plain answers bring a run with nothing to do to its end.
#[verifier::rlimit(50)]
proof fn lemma_answers_left(
    workflow: WorkflowView,
    states: TaskStatesView,
    events: Seq<(EventView, u128)>,
)
    requires
        is_settled(workflow.tasks, states),
        plainly_answered(initial(workflow, states), events),
    ensures
        ({
            let begin = initial(workflow, states);
            let now = after(begin, events);
            &&& idle(now, workflow.tasks, states)
            &&& !is_stopped(now)
            &&& 0 <= answers_left(now)
            &&& answers_left(now) == 0 || answers_left(now) + events.len() <= answers_left(begin)
        }),
    decreases events.len(),
{
    let begin = initial(workflow, states);
    reveal(plainly_answered);
    if events.len() > 0 {
        let rest = events.drop_last();
        let n = rest.len() as int;
        assert forall|k: int| 0 <= k < rest.len() implies (#[trigger] rest[k]).0 == plain_answer(
            action_of(after(begin, rest.take(k))),
        ) by {
            assert(events[k] == rest[k]);
            assert(events.take(k) =~= rest.take(k));
        }
        lemma_answers_left(workflow, states, rest);
        assert(events.take(n) =~= rest);
        assert(events[n].0 == plain_answer(action_of(after(begin, rest))));
        lemma_plain_step(after(begin, rest), events.last().1, workflow.tasks, states);
    }
}

/// When a run has ended with a summary, a task of the workflow remains in it exactly
/// where the run has not taken it up and all that it depends on remains. The run has not
/// taken up what was not pending at its beginning, and what it has left out.
#[verifier::rlimit(50)]
pub proof fn law_what_remains(
    workflow: WorkflowView,
    states: TaskStatesView,
    events: Seq<(EventView, u128)>,
    task: TaskView,
)
    requires
        workflow.wf(),
        states.wf(),
        after(initial(workflow, states), events).phase matches PhaseView::Ended { outcome: Ok(_) },
        workflow.tasks.contains(task),
    ensures
        ({
            let end = after(initial(workflow, states), events).data;
            let untaken = !is_fresh(states, task.id) || end.states.get(task.id) == Some(
                TaskStatusView::SkippedDueToDependencyFailure,
            );
            end.workflow.tasks.contains(task) <==> untaken && forall|dependency: Text| #[trigger]
                task.dependencies.contains(dependency) ==> task_ids(end.workflow.tasks).contains(
                    dependency,
                )
        }),
{
    let run = after(initial(workflow, states), events);
    let id = task.id;
    law_reachable(workflow, states, events);
    lemma_after_told(workflow, states, events, id);
    let ids = task_ids(workflow.tasks);
    let i = choose|i: int| 0 <= i < workflow.tasks.len() && workflow.tasks[i] == task;
    assert(ids[i] == id);
    assert(run.data.dag.nodes.contains(id));
    let n = choose|n: int| 0 <= n < ids.len() && ids[n] == id;
    assert(run.data.states.status.contains_key(run.data.dag.nodes[n]));
    let tasks = choose|tasks: Seq<TaskView>| #[trigger]
        is_left_of(run.data.workflow.tasks, tasks, workflow) && (task_ids(tasks).contains(id)
            <==> is_untaken(states, run.data.states, id));
    law_standing(tasks, task);
    if tasks.contains(task) {
        let j = choose|j: int| 0 <= j < tasks.len() && tasks[j] == task;
        assert(task_ids(tasks)[j] == id);
    }
    if task_ids(tasks).contains(id) {
        let j = choose|j: int| 0 <= j < task_ids(tasks).len() && task_ids(tasks)[j] == id;
        assert(workflow.tasks.contains(tasks[j]));
        let k = choose|k: int| 0 <= k < workflow.tasks.len() && workflow.tasks[k] == tasks[j];
        assert(ids[k] == ids[i]);
        assert(tasks[j] == task);
    }
}

/// The statuses go on to tell what has been taken up.
pub proof fn lemma_after_told(
    workflow: WorkflowView,
    states: TaskStatesView,
    events: Seq<(EventView, u128)>,
    id: Text,
)
    requires
        workflow.wf(),
        states.wf(),
    ensures
        told_by_status(after(initial(workflow, states), events), workflow, states, id),
    decreases events.len(),
{
    if events.len() > 0 {
        let rest = events.drop_last();
        lemma_after_told(workflow, states, rest, id);
        law_reachable(workflow, states, rest);
        lemma_after_reasoned(workflow, states, rest);
        if !is_fresh(states, id) {
            lemma_after_kept(workflow, states, rest, id);
        }
        lemma_told_by_status(
            after(initial(workflow, states), rest),
            events.last().0,
            events.last().1,
            workflow,
            states,
            id,
        );
    }
}

/// When a run has ended with a summary, a task that was pending or had no status at its
/// beginning has been left out exactly where a task that it depends on has failed or was
/// left out; if it was not left out, it has been run.
#[verifier::rlimit(50)]
pub proof fn law_left_out(
    workflow: WorkflowView,
    states: TaskStatesView,
    events: Seq<(EventView, u128)>,
    task: TaskView,
)
    requires
        workflow.wf(),
        states.wf(),
        after(initial(workflow, states), events).phase matches PhaseView::Ended { outcome: Ok(_) },
        workflow.tasks.contains(task),
        is_fresh(states, task.id),
    ensures
        ({
            let end = after(initial(workflow, states), events).data.states;
            let status = end.get(task.id);
            &&& status == Some(TaskStatusView::SkippedDueToDependencyFailure) <==> exists|
                dependency: Text,
            | #[trigger]
                task.dependencies.contains(dependency) && (match end.get(dependency) {
                    Some(TaskStatusView::Failed { error }) => true,
                    Some(TaskStatusView::Skipped) => true,
                    Some(TaskStatusView::SkippedDueToDependencyFailure) => true,
                    _ => false,
                })
            &&& status is Some
            &&& status->0 is SkippedDueToDependencyFailure || status->0 is Completed
                || status->0 is Failed
        }),
{
    let run = after(initial(workflow, states), events);
    let end = run.data.states;
    let id = task.id;
    law_reachable(workflow, states, events);
    lemma_after_reasoned(workflow, states, events);
    let ids = task_ids(workflow.tasks);
    let i = choose|i: int| 0 <= i < workflow.tasks.len() && workflow.tasks[i] == task;
    assert(ids[i] == id);
    assert(run.data.dag.nodes.contains(id));
    assert(has_reason(run.data, id));
    let j = choose|j: int| 0 <= j < ids.len() && ids[j] == id;
    assert(end.status.contains_key(run.data.dag.nodes[j]));
    assert forall|dependency: Text| #[trigger]
        task.dependencies.contains(dependency) <==> run.data.dag.edges.contains(
            (dependency, id),
        ) by {
        lemma_declared_edges(workflow.tasks, dependency, id);
        if run.data.dag.edges.contains((dependency, id)) {
            let k = choose|k: int|
                0 <= k < workflow.tasks.len() && (#[trigger] workflow.tasks[k]).id == id
                    && workflow.tasks[k].dependencies.contains(dependency);
            assert(ids[k] == ids[i]);
        }
    }
    if is_blocked(run.data, id) {
        let dependency = choose|dependency: Text| #[trigger]
            run.data.dag.edges.contains((dependency, id)) && blocks(end, dependency);
        assert(task.dependencies.contains(dependency));
    }
    if exists|dependency: Text| #[trigger]
        task.dependencies.contains(dependency) && blocks(end, dependency) {
        let dependency = choose|dependency: Text| #[trigger]
            task.dependencies.contains(dependency) && blocks(end, dependency);
        assert(run.data.dag.edges.contains((dependency, id)));
        assert(!is_completed(end, dependency));
    }
}

/// Statuses go on to have their reasons.
proof fn lemma_after_reasoned(
    workflow: WorkflowView,
    states: TaskStatesView,
    events: Seq<(EventView, u128)>,
)
    requires
        workflow.wf(),
        states.wf(),
    ensures
        reasoned(after(initial(workflow, states), events), states),
    decreases events.len(),
{
    if events.len() > 0 {
        let rest = events.drop_last();
        lemma_after_reasoned(workflow, states, rest);
        law_reachable(workflow, states, rest);
        lemma_reasoned(
            after(initial(workflow, states), rest),
            events.last().0,
            events.last().1,
            states,
        );
    }
}

/// After a run that ended with a summary, the successors of every task are known: those
/// of a task are the tasks that depend on it directly.
pub proof fn law_successors(
    workflow: WorkflowView,
    states: TaskStatesView,
    events: Seq<(EventView, u128)>,
    id: Text,
    dependent: Text,
)
    requires
        workflow.wf(),
        states.wf(),
        after(initial(workflow, states), events).phase matches PhaseView::Ended { outcome: Ok(_) },
    ensures
        ({
            let known = after(initial(workflow, states), events).data.workflow.successors;
            &&& known is Some
            &&& known->0.contains_key(id) <==> task_ids(workflow.tasks).contains(id)
            &&& known->0.contains_key(id) ==> (known->0[id].contains(dependent) <==> exists|i: int|
                0 <= i < workflow.tasks.len() && (#[trigger] workflow.tasks[i]).id == dependent
                    && workflow.tasks[i].dependencies.contains(id))
        }),
{
    let run = after(initial(workflow, states), events);
    law_reachable(workflow, states, events);
    law_successors_by_edges(run.data.dag, id, dependent);
    lemma_declared_edges(workflow.tasks, id, dependent);
}

/// Taking up the statuses of an earlier run puts what was running, or was left out for a
/// dependency's sake, back to pending, and keeps every other status; taking them up again
/// changes nothing more.
pub proof fn law_recovery(states: TaskStatesView, id: Text)
    requires
        states.wf(),
    ensures
        states.recovered().wf(),
        !is_running(states.recovered(), id),
        is_completed(states, id) ==> is_completed(states.recovered(), id),
        states.recovered().get(id) == (match states.get(id) {
            None => None,
            Some(TaskStatusView::Running) => Some(TaskStatusView::Pending),
            Some(TaskStatusView::SkippedDueToDependencyFailure) => Some(TaskStatusView::Pending),
            Some(status) => Some(status),
        }),
        states.recovered().ids == states.ids,
        states.recovered().get(id) != Some(TaskStatusView::SkippedDueToDependencyFailure),
        states.recovered().recovered() == states.recovered(),
{
    let once = states.recovered();
    assert forall|other: Text| once.ids.contains(other) <==> #[trigger] once.status.contains_key(
        other,
    ) by {
        assert(states.ids.contains(other) <==> states.status.contains_key(other));
    }
    assert(once.recovered() =~= once);
}

} // verus!
