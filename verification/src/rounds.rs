//! What a round of a run does, and that it leaves nothing undone.

use crate::dag::is_done;
use crate::laws::{after, law_reachable, lemma_after_told};
use crate::lists::lemma_filter_members;
use crate::model::{action_of, handle_ids, initial, transition, PhaseView, RunDataView, RunView};
use crate::protocol::{ActionView, EventView};
use crate::reachable::{contains_from, inv, is_failed};
use crate::state::{TaskStatesView, TaskStatusView};
use crate::task::{task_ids, TaskView};
use crate::text::{first_index, lemma_first_index, Text};
use crate::workflow::{lemma_declared_edges, WorkflowView};
use vstd::prelude::*;

verus! {

/// A round begins with a look for an interrupt. Without one, nothing has changed, and all
/// that is in flight is to be polled, beginning with the first.
pub proof fn law_round_begins(run: RunView, now: u128)
    requires
        action_of(run) is CheckInterrupt,
    ensures
        ({
            let next = transition(run, EventView::Interrupted { yes: false }, now);
            &&& next.phase is Poll && !next.saving
            &&& next.data.cursor == 0
            &&& next.data.queue.len() == 0
            &&& next.data.states == run.data.states
            &&& next.data.handles == run.data.handles
            &&& next.data.workflow == run.data.workflow
        }),
{
}

/// After the pause the next round begins, and nothing has changed.
pub proof fn law_pause_over(run: RunView, now: u128)
    requires
        action_of(run) is Sleep,
    ensures
        ({
            let next = transition(run, EventView::Done, now);
            &&& action_of(next) is CheckInterrupt
            &&& next.data == run.data
        }),
{
}

/// A round goes through its parts in order, each from its beginning: when all has been
/// polled, what was noted as finished is settled; when all that is settled, tasks are left
/// out; then the periodic hooks of all that is in flight are looked at; then what is ready
/// is started.
pub proof fn law_round_goes_on(run: RunView, now: u128)
    requires
        !run.saving,
    ensures
        ({
            let next = transition(run, EventView::Done, now);
            &&& run.phase is Poll && run.data.cursor >= run.data.handles.len() ==> next.phase
                is Process && next.data == (RunDataView { cursor: 0, ..run.data })
                && !next.saving
            &&& run.phase is Process && run.data.cursor >= run.data.queue.len() ==> next.phase
                is Skips && next.data == run.data && !next.saving
            &&& run.phase is Skips ==> next.phase is Periodic && next.data.cursor == 0
                && next.data.hook_cursor == 0 && next.data.handles == run.data.handles
                && next.data.workflow == run.data.workflow
            &&& run.phase is Ready ==> next.phase is Dispatch && next.data.cursor == 0
                && next.data.states == run.data.states && next.data.handles == run.data.handles
                && next.data.workflow == run.data.workflow && !next.saving
        }),
{
}

/// A task that was asked whether it is running is noted as finished exactly if it is not;
/// nothing else changes.
pub proof fn law_asked(run: RunView, now: u128, id: Text, yes: bool)
    requires
        action_of(run) == (ActionView::IsRunning { id }),
    ensures
        ({
            let next = transition(run, EventView::Running { yes }, now);
            &&& next.phase is Poll && !next.saving
            &&& yes ==> next.data == run.data
            &&& !yes ==> next.data.queue == run.data.queue.push(id) && next.data == (RunDataView {
                queue: next.data.queue,
                ..run.data
            })
        }),
{
}

/// Whether it has been told of a task that it is not running any more.
pub open spec fn was_told_to_have_ended(
    begin: RunView,
    events: Seq<(EventView, u128)>,
    id: Text,
) -> bool {
    exists|k: int|
        0 <= k < events.len() && (#[trigger] events[k]).0 == (EventView::Running { yes: false })
            && action_of(after(begin, events.take(k))) == (ActionView::IsRunning { id })
}

/// Whether every task that is noted as finished has been told to have ended, or has failed.
pub open spec fn is_noted_rightly(begin: RunView, events: Seq<(EventView, u128)>) -> bool {
    let run = after(begin, events);
    match run.phase {
        PhaseView::Poll | PhaseView::Expire { id: _ } | PhaseView::AskRunning { id: _ } =>
            all_ended(begin, events),
        PhaseView::Process => all_ended(begin, events),
        PhaseView::Wait { task } => all_ended(begin, events) && was_told_to_have_ended(
            begin,
            events,
            task.id,
        ),
        PhaseView::Collect { task } => all_ended(begin, events),
        PhaseView::Settle { batch } => all_ended(begin, events),
        _ => true,
    }
}

/// Whether every task of the queue has been told to have ended, or has failed.
pub open spec fn all_ended(begin: RunView, events: Seq<(EventView, u128)>) -> bool {
    forall|q: int|
        0 <= q < after(begin, events).data.queue.len() ==> was_told_to_have_ended(
            begin,
            events,
            #[trigger] after(begin, events).data.queue[q],
        ) || is_failed(after(begin, events).data.states, after(begin, events).data.queue[q])
}

/// What has been told stays told.
proof fn lemma_stays_told(begin: RunView, events: Seq<(EventView, u128)>, id: Text)
    requires
        events.len() > 0,
        was_told_to_have_ended(begin, events.drop_last(), id),
    ensures
        was_told_to_have_ended(begin, events, id),
{
    let rest = events.drop_last();
    let k = choose|k: int|
        0 <= k < rest.len() && (#[trigger] rest[k]).0 == (EventView::Running { yes: false })
            && action_of(after(begin, rest.take(k))) == (ActionView::IsRunning { id });
    assert(events[k] == rest[k]);
    assert(events.take(k) =~= rest.take(k));
}

/// Tasks are noted as finished rightly.
#[verifier::rlimit(80)]
proof fn lemma_noted(
    workflow: WorkflowView,
    states: TaskStatesView,
    events: Seq<(EventView, u128)>,
)
    requires
        workflow.wf(),
        states.wf(),
    ensures
        is_noted_rightly(initial(workflow, states), events),
    decreases events.len(),
{
    let begin = initial(workflow, states);
    if events.len() > 0 {
        let rest = events.drop_last();
        let before = after(begin, rest);
        let run = after(begin, events);
        let event = events.last().0;
        let n = rest.len() as int;
        lemma_noted(workflow, states, rest);
        law_reachable(workflow, states, rest);
        law_reachable(workflow, states, events);
        assert(events.take(n) =~= rest);
        assert(events[n] == events.last());
        assert forall|id: Text| was_told_to_have_ended(begin, rest, id) implies #[trigger]
            was_told_to_have_ended(begin, events, id) by {
            lemma_stays_told(begin, events, id);
        }
        assert forall|id: Text| is_failed(before.data.states, id) implies #[trigger] is_failed(
            run.data.states,
            id,
        ) || run.phase is TerminateAll by {
            crate::history::lemma_terminal_step(before, event, events.last().1, id);
        }
        if run.data.queue != before.data.queue {
            match before.phase {
                PhaseView::AskRunning { id } => {
                    assert(was_told_to_have_ended(begin, events, id));
                    assert(run.data.queue == before.data.queue.push(id));
                },
                PhaseView::Expire { id } => {
                    assert(run.data.queue == before.data.queue.push(id));
                    assert(is_failed(run.data.states, id));
                },
                _ => {},
            }
        }
        assert forall|q: int| 0 <= q < before.data.queue.len() && all_ended(begin, rest) implies
            was_told_to_have_ended(begin, events, #[trigger] before.data.queue[q]) || is_failed(
            run.data.states,
            before.data.queue[q],
        ) || run.phase is TerminateAll by {
            assert(was_told_to_have_ended(begin, rest, before.data.queue[q]) || is_failed(
                before.data.states,
                before.data.queue[q],
            ));
        }
        if run.phase is Wait && !(before.phase is Wait) {
            let id = before.data.queue[before.data.cursor];
            lemma_first_index(handle_ids(before.data.handles), id);
            assert(was_told_to_have_ended(begin, rest, id));
        }
    }
}

/// A process is waited for only when it has been asked whether it is running and was not.
pub proof fn law_waits_for_ended(
    workflow: WorkflowView,
    states: TaskStatesView,
    events: Seq<(EventView, u128)>,
    id: Text,
)
    requires
        workflow.wf(),
        states.wf(),
        action_of(after(initial(workflow, states), events)) == (ActionView::Wait { id }),
    ensures
        exists|k: int|
            0 <= k < events.len() && (#[trigger] events[k]).0 == (EventView::Running { yes: false })
                && action_of(after(initial(workflow, states), events.take(k))) == (
            ActionView::IsRunning { id }),
{
    lemma_noted(workflow, states, events);
}

/// The finished tasks before the cursor are not in flight any more.
pub open spec fn is_settled_upto(run: RunView) -> bool {
    match run.phase {
        PhaseView::Process | PhaseView::Wait { task: _ } | PhaseView::Collect { task: _ } =>
            none_in_flight(run.data, run.data.cursor),
        PhaseView::Settle { batch: _ } => none_in_flight(run.data, run.data.cursor),
        PhaseView::Skips => none_in_flight(run.data, run.data.queue.len() as int),
        _ => true,
    }
}

/// Whether none of the first tasks of the queue is in flight.
pub open spec fn none_in_flight(data: RunDataView, upto: int) -> bool {
    forall|q: int|
        0 <= q < upto && q < data.queue.len() ==> !handle_ids(data.handles).contains(
            #[trigger] data.queue[q],
        )
}

/// Settling leaves no finished task in flight.
#[verifier::rlimit(80)]
proof fn lemma_settled(run: RunView, event: EventView, now: u128)
    requires
        inv(run),
        is_settled_upto(run),
    ensures
        is_settled_upto(transition(run, event, now)),
{
    let data = run.data;
    let next = transition(run, event, now);
    if run.phase is Process && event is Done && !run.saving && data.cursor < data.queue.len() {
        let ids = handle_ids(data.handles);
        let id = data.queue[data.cursor];
        lemma_first_index(ids, id);
        if let Some(i) = first_index(ids, id) {
            let new = handle_ids(next.data.handles);
            assert(new =~= ids.remove(i));
            assert forall|q: int| 0 <= q < data.cursor + 1 && q < data.queue.len() implies
                !new.contains(#[trigger] data.queue[q]) by {
                if new.contains(data.queue[q]) {
                    let k = choose|k: int| 0 <= k < new.len() && new[k] == data.queue[q];
                    let j = if k < i { k } else { k + 1 };
                    assert(ids[j] == data.queue[q]);
                    assert(ids.contains(data.queue[q]));
                    assert(ids[j] != ids[i]);
                }
            }
        }
    }
}

/// When finished tasks have been settled, none of them is in flight any more: what has
/// ended does not stay.
pub proof fn law_finished_leave(
    workflow: WorkflowView,
    states: TaskStatesView,
    events: Seq<(EventView, u128)>,
    id: Text,
)
    requires
        workflow.wf(),
        states.wf(),
        after(initial(workflow, states), events).phase is Skips,
        after(initial(workflow, states), events).data.queue.contains(id),
    ensures
        !handle_ids(after(initial(workflow, states), events).data.handles).contains(id),
{
    let run = after(initial(workflow, states), events);
    lemma_after_settled(workflow, states, events);
    let q = choose|q: int| 0 <= q < run.data.queue.len() && run.data.queue[q] == id;
    assert(!handle_ids(run.data.handles).contains(run.data.queue[q]));
}

/// Settling goes on to leave no finished task in flight.
proof fn lemma_after_settled(
    workflow: WorkflowView,
    states: TaskStatesView,
    events: Seq<(EventView, u128)>,
)
    requires
        workflow.wf(),
        states.wf(),
    ensures
        is_settled_upto(after(initial(workflow, states), events)),
    decreases events.len(),
{
    if events.len() > 0 {
        let rest = events.drop_last();
        lemma_after_settled(workflow, states, rest);
        law_reachable(workflow, states, rest);
        lemma_settled(after(initial(workflow, states), rest), events.last().0, events.last().1);
    }
}

/// A task leaves flight only to be waited for, or because it has failed.
#[verifier::rlimit(50)]
pub proof fn law_leaves_flight(
    workflow: WorkflowView,
    states: TaskStatesView,
    events: Seq<(EventView, u128)>,
    event: EventView,
    now: u128,
    id: Text,
)
    requires
        workflow.wf(),
        states.wf(),
        handle_ids(after(initial(workflow, states), events).data.handles).contains(id),
        !handle_ids(
            transition(after(initial(workflow, states), events), event, now).data.handles,
        ).contains(id),
    ensures
        ({
            let run = after(initial(workflow, states), events);
            let next = transition(run, event, now);
            ||| action_of(next) == (ActionView::Wait { id })
            ||| run.data.states.get(id) matches Some(TaskStatusView::Failed { error: _ })
        }),
{
    let run = after(initial(workflow, states), events);
    let next = transition(run, event, now);
    law_reachable(workflow, states, events);
    let ids = handle_ids(run.data.handles);
    let new = handle_ids(next.data.handles);
    let k = choose|k: int| 0 <= k < ids.len() && ids[k] == id;
    match run.phase {
        PhaseView::Process => {
            lemma_first_index(ids, run.data.queue[run.data.cursor]);
            if next.data.handles != run.data.handles {
                let i = first_index(ids, run.data.queue[run.data.cursor])->0;
                assert(new =~= ids.remove(i));
                if k != i {
                    let j = if k < i { k } else { k - 1 };
                    assert(new[j] == id);
                }
            }
        },
        PhaseView::FirePeriodic { name, batch } => {
            assert(new =~= ids);
        },
        PhaseView::Announce { launch, batch } => {
            if new.len() > ids.len() {
                assert(new[k] == id);
            }
        },
        _ => {},
    }
}

/// Whether a task could be started: it is pending and to be taken up, and all that it
/// depends on is done.
pub open spec fn is_startable(data: RunDataView, id: Text) -> bool {
    &&& data.dag.nodes.contains(id)
    &&& data.states.is_pending(id)
    &&& task_ids(data.workflow.tasks).contains(id)
    &&& forall|dependency: Text| #[trigger]
        data.dag.edges.contains((dependency, id)) ==> is_done(data.states, dependency)
}

/// What could be started is still to be come to, or as much is in flight as may be.
pub open spec fn is_ahead(run: RunView) -> bool {
    match run.phase {
        PhaseView::Dispatch => all_ahead(run.data),
        PhaseView::Setup { launch } => all_ahead(run.data),
        PhaseView::Launch { launch } => all_ahead(run.data),
        PhaseView::Announce { launch, batch } => all_ahead(run.data),
        PhaseView::Check | PhaseView::Sleep => run.data.handles.len()
            >= run.data.workflow.max_parallel || forall|id: Text|
            !(#[trigger] is_startable(run.data, id)),
        _ => true,
    }
}

/// What could be started is in the rest of the queue.
pub open spec fn all_ahead(data: RunDataView) -> bool {
    forall|id: Text| #[trigger]
        is_startable(data, id) ==> contains_from(data.queue, data.cursor, id)
}

/// What can be started after a step could be before.
proof fn lemma_startable_before(before: RunDataView, after: RunDataView, id: Text)
    requires
        is_startable(after, id),
        before.dag == after.dag,
        before.states.is_pending(id),
        task_ids(after.workflow.tasks).contains(id) ==> task_ids(before.workflow.tasks).contains(id),
        forall|other: Text| #[trigger] is_done(after.states, other) ==> is_done(before.states, other),
    ensures
        is_startable(before, id),
{
    assert forall|dependency: Text| #[trigger]
        before.dag.edges.contains((dependency, id)) implies is_done(before.states, dependency) by {
        assert(after.dag.edges.contains((dependency, id)));
        assert(is_done(after.states, dependency));
    }
}

/// A step comes to all that could be started.
#[verifier::rlimit(80)]
proof fn lemma_ahead(run: RunView, event: EventView, now: u128)
    requires
        inv(run),
        is_ahead(run),
    ensures
        is_ahead(transition(run, event, now)),
{
    let data = run.data;
    let next = transition(run, event, now);
    match run.phase {
        PhaseView::Ready => {
            if event is Done && !run.saving {
                let ready = |id: Text| data.dag.is_ready(data.states, id);
                lemma_filter_members(data.dag.nodes, ready);
                assert forall|id: Text| #[trigger] is_startable(next.data, id) implies
                    contains_from(next.data.queue, 0, id) by {
                    assert(ready(id));
                    assert(next.data.queue.contains(id));
                    let k = choose|k: int|
                        0 <= k < next.data.queue.len() && next.data.queue[k] == id;
                    assert(next.data.queue[k] == id);
                }
            }
        },
        PhaseView::Dispatch => {
            if event is Done && !run.saving {
                if next.phase is Check {
                    if data.handles.len() < data.workflow.max_parallel {
                        assert forall|id: Text| !(#[trigger] is_startable(next.data, id)) by {
                            if is_startable(next.data, id) {
                                assert(is_startable(data, id));
                                let k = choose|k: int|
                                    data.cursor <= k < data.queue.len() && #[trigger] data.queue[k]
                                        == id;
                            }
                        }
                    }
                } else {
                    lemma_dispatch_ahead(run, now);
                }
            }
        },
        PhaseView::Check => {
            if event is Done && !run.saving && next.phase is Sleep {
                assert(next.data == data);
            }
        },
        _ => {
            if next.phase is Dispatch || next.phase is Launch || next.phase is Announce {
                assert forall|id: Text| #[trigger] is_startable(next.data, id) implies
                    contains_from(next.data.queue, next.data.cursor, id) by {
                    lemma_startable_before(data, next.data, id);
                    assert(contains_from(data.queue, data.cursor, id));
                }
            }
        },
    }
}

/// Going on to the next ready task leaves nothing behind.
#[verifier::rlimit(80)]
proof fn lemma_dispatch_ahead(run: RunView, now: u128)
    requires
        inv(run),
        run.phase is Dispatch,
        !run.saving,
        all_ahead(run.data),
        !(transition(run, EventView::Done, now).phase is Check),
    ensures
        all_ahead(transition(run, EventView::Done, now).data),
{
    let data = run.data;
    let next = transition(run, EventView::Done, now);
    let ids = task_ids(data.workflow.tasks);
    let first = data.queue[data.cursor];
    lemma_first_index(ids, first);
    assert forall|id: Text| #[trigger] is_startable(next.data, id) implies contains_from(
        next.data.queue,
        next.data.cursor,
        id,
    ) by {
        if next.data.workflow.tasks != data.workflow.tasks {
            let i = first_index(ids, first)->0;
            assert(task_ids(next.data.workflow.tasks) =~= ids.remove(i));
            let k = choose|k: int| 0 <= k < ids.remove(i).len() && ids.remove(i)[k] == id;
            let j = if k < i { k } else { k + 1 };
            assert(ids[j] == id);
        }
        lemma_startable_before(data, next.data, id);
        let k = choose|k: int|
            data.cursor <= k < data.queue.len() && #[trigger] data.queue[k] == id;
        if k == data.cursor {
            assert(id == first);
            assert(ids.contains(id));
        }
        assert(next.data.queue[k] == id);
    }
}

/// A run goes on to come to all that could be started.
proof fn lemma_after_ahead(
    workflow: WorkflowView,
    states: TaskStatesView,
    events: Seq<(EventView, u128)>,
)
    requires
        workflow.wf(),
        states.wf(),
    ensures
        is_ahead(after(initial(workflow, states), events)),
    decreases events.len(),
{
    if events.len() > 0 {
        let rest = events.drop_last();
        lemma_after_ahead(workflow, states, rest);
        law_reachable(workflow, states, rest);
        lemma_ahead(after(initial(workflow, states), rest), events.last().0, events.last().1);
    }
}

/// A round starts all that can be started: when the run lets time pass, as many tasks are
/// in flight as may be, or every pending task of the workflow depends on one that has not
/// completed.
#[verifier::rlimit(50)]
pub proof fn law_nothing_waits_in_vain(
    workflow: WorkflowView,
    states: TaskStatesView,
    events: Seq<(EventView, u128)>,
    task: TaskView,
)
    requires
        workflow.wf(),
        states.wf(),
        action_of(after(initial(workflow, states), events)) is Sleep,
        workflow.tasks.contains(task),
        after(initial(workflow, states), events).data.states.get(task.id) == Some(
            TaskStatusView::Pending,
        ),
    ensures
        ({
            let run = after(initial(workflow, states), events);
            ||| run.data.handles.len() == workflow.max_parallel
            ||| exists|dependency: Text| #[trigger]
                task.dependencies.contains(dependency) && run.data.states.get(dependency) != Some(
                    TaskStatusView::Completed,
                )
        }),
{
    let run = after(initial(workflow, states), events);
    let id = task.id;
    law_reachable(workflow, states, events);
    lemma_after_ahead(workflow, states, events);
    lemma_after_told(workflow, states, events, id);
    let ids = task_ids(workflow.tasks);
    let i = choose|i: int| 0 <= i < workflow.tasks.len() && workflow.tasks[i] == task;
    assert(ids[i] == id);
    assert(run.data.dag.nodes.contains(id));
    if run.data.handles.len() < workflow.max_parallel && (forall|dependency: Text| #[trigger]
        task.dependencies.contains(dependency) ==> run.data.states.get(dependency) == Some(
            TaskStatusView::Completed,
        )) {
        assert forall|dependency: Text| #[trigger]
            run.data.dag.edges.contains((dependency, id)) implies is_done(
            run.data.states,
            dependency,
        ) by {
            lemma_declared_edges(workflow.tasks, dependency, id);
            let k = choose|k: int|
                0 <= k < workflow.tasks.len() && (#[trigger] workflow.tasks[k]).id == id
                    && workflow.tasks[k].dependencies.contains(dependency);
            assert(ids[k] == ids[i]);
            assert(task.dependencies.contains(dependency));
        }
        assert(is_startable(run.data, id));
    }
}

/// The run goes on while there is anything left: when it lets time pass, something is in
/// flight, or a task of the workflow has not come to an end.
pub proof fn law_goes_on(
    workflow: WorkflowView,
    states: TaskStatesView,
    events: Seq<(EventView, u128)>,
)
    requires
        workflow.wf(),
        states.wf(),
        action_of(after(initial(workflow, states), events)) is Sleep,
    ensures
        ({
            let run = after(initial(workflow, states), events);
            ||| run.data.handles.len() > 0
            ||| exists|i: int|
                0 <= i < workflow.tasks.len() && match run.data.states.get(
                    (#[trigger] workflow.tasks[i]).id,
                ) {
                    Some(TaskStatusView::Completed) => false,
                    Some(TaskStatusView::Failed { error }) => false,
                    Some(TaskStatusView::Skipped) => false,
                    Some(TaskStatusView::SkippedDueToDependencyFailure) => false,
                    _ => true,
                }
        }),
{
    lemma_left_over(workflow, states, events);
}

/// Before the pause there is something left.
proof fn lemma_left_over(
    workflow: WorkflowView,
    states: TaskStatesView,
    events: Seq<(EventView, u128)>,
)
    requires
        workflow.wf(),
        states.wf(),
    ensures
        ({
            let run = after(initial(workflow, states), events);
            run.phase is Sleep ==> run.data.handles.len() > 0 || exists|i: int|
                0 <= i < workflow.tasks.len() && match run.data.states.get(
                    (#[trigger] workflow.tasks[i]).id,
                ) {
                    Some(TaskStatusView::Completed) => false,
                    Some(TaskStatusView::Failed { error }) => false,
                    Some(TaskStatusView::Skipped) => false,
                    Some(TaskStatusView::SkippedDueToDependencyFailure) => false,
                    _ => true,
                }
        }),
    decreases events.len(),
{
    if events.len() > 0 {
        let rest = events.drop_last();
        let before = after(initial(workflow, states), rest);
        let run = after(initial(workflow, states), events);
        lemma_left_over(workflow, states, rest);
        law_reachable(workflow, states, rest);
        if run.phase is Sleep && before.phase is Check && run.data.handles.len() == 0 {
            let nodes = before.data.dag.nodes;
            let i = choose|i: int|
                0 <= i < nodes.len() && !(before.data.states.status.contains_key(
                    #[trigger] nodes[i],
                ) && before.data.states.status[nodes[i]].terminal());
            assert(task_ids(workflow.tasks)[i] == workflow.tasks[i].id);
            assert(workflow.tasks[i].id == nodes[i]);
        }
    }
}

} // verus!
