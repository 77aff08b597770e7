//! When tasks time out, when periodic hooks are run, and how long a run took, told from
//! the events of the run and the times at which they came.

use crate::declared::{as_declared, declares, is_declared, lemma_as_declared};
use crate::laws::{after, law_reachable};
use crate::lists::lemma_filter_members;
use crate::model::{
    action_of, handle_ids, initial, last_fire, transition, InFlightView, PhaseView, RunView,
};
use crate::monitoring::{fires, hooks_due, HookTrigger, MonitoringHookView, TaskPhase};
use crate::protocol::{ActionView, EventView};
use crate::reachable::inv;
use crate::state::TaskStatesView;
use crate::task::ExecutionModeView;
use crate::text::{first_index, lemma_first_index, Text};
use crate::workflow::WorkflowView;
use vstd::prelude::*;

verus! {

/// The time at which a task last came into flight, by the events of a run.
pub open spec fn in_flight_since(begin: RunView, events: Seq<(EventView, u128)>, id: Text) -> u128
    decreases events.len(),
{
    if events.len() == 0 {
        0
    } else {
        let rest = events.drop_last();
        if handle_ids(after(begin, events).data.handles).contains(id) && !handle_ids(
            after(begin, rest).data.handles,
        ).contains(id) {
            events.last().1
        } else {
            in_flight_since(begin, rest, id)
        }
    }
}

/// The time at which the periodic hook of a name of a task was last run, by the events of
/// a run: when the run asked for it and was told that it was done. If it has not been run,
/// the time at which the task came into flight.
pub open spec fn last_run(
    begin: RunView,
    events: Seq<(EventView, u128)>,
    id: Text,
    name: Text,
) -> u128
    decreases events.len(),
{
    if events.len() == 0 {
        0
    } else {
        let rest = events.drop_last();
        let before = after(begin, rest);
        if handle_ids(after(begin, events).data.handles).contains(id) && !handle_ids(
            before.data.handles,
        ).contains(id) {
            events.last().1
        } else if (action_of(before) matches ActionView::FireHooks { batch }
            && batch.context.task_id == id && batch.hooks.len() == 1 && batch.hooks[0].name == name
            && batch.hooks[0].trigger is Periodic) && events.last().0 is Done {
            events.last().1
        } else {
            last_run(begin, rest, id, name)
        }
    }
}

/// What is kept of the times of a task in flight agrees with the events.
pub open spec fn is_timed(
    begin: RunView,
    events: Seq<(EventView, u128)>,
    flight: InFlightView,
) -> bool {
    &&& flight.started_at == in_flight_since(begin, events, flight.id)
    &&& forall|name: Text| #[trigger]
        last_fire(flight, name) == last_run(begin, events, flight.id, name)
}

/// What is kept of times agrees with the events.
#[verifier::rlimit(80)]
proof fn lemma_timed(
    workflow: WorkflowView,
    states: TaskStatesView,
    events: Seq<(EventView, u128)>,
    i: int,
)
    requires
        workflow.wf(),
        states.wf(),
        0 <= i < after(initial(workflow, states), events).data.handles.len(),
    ensures
        is_timed(
            initial(workflow, states),
            events,
            after(initial(workflow, states), events).data.handles[i],
        ),
    decreases events.len(),
{
    let begin = initial(workflow, states);
    let run = after(begin, events);
    if events.len() > 0 {
        let rest = events.drop_last();
        let before = after(begin, rest);
        let event = events.last().0;
        let now = events.last().1;
        law_reachable(workflow, states, rest);
        law_reachable(workflow, states, events);
        lemma_as_declared(workflow, states, rest);
        let ids = handle_ids(before.data.handles);
        let new = handle_ids(run.data.handles);
        let flight = run.data.handles[i];
        assert(new[i] == flight.id);
        if ids.contains(flight.id) {
            let j = lemma_stays(before, event, now, i);
            lemma_timed(workflow, states, rest, j);
            lemma_same_times(begin, events, before.data.handles[j], flight, j, workflow);
        } else {
            lemma_new_flight(before, event, now, i);
        }
    }
}

/// A task that was in flight and still is was there with the same times, but for that of a
/// periodic hook that was run.
#[verifier::rlimit(80)]
proof fn lemma_stays(run: RunView, event: EventView, now: u128, i: int) -> (j: int)
    requires
        inv(run),
        inv(transition(run, event, now)),
        0 <= i < transition(run, event, now).data.handles.len(),
        handle_ids(run.data.handles).contains(transition(run, event, now).data.handles[i].id),
        run.phase is FirePeriodic ==> 0 <= run.data.cursor < run.data.handles.len(),
    ensures
        0 <= j < run.data.handles.len(),
        ({
            let flight = transition(run, event, now).data.handles[i];
            let old_flight = run.data.handles[j];
            if run.phase is FirePeriodic && event is Done && !run.saving && j == run.data.cursor {
                flight == (InFlightView {
                    last_periodic_fire: old_flight.last_periodic_fire.insert(
                        run.phase->FirePeriodic_name,
                        now,
                    ),
                    ..old_flight
                })
            } else {
                flight == old_flight
            }
        }),
        run.phase is FirePeriodic ==> j == i,
{
    let next = transition(run, event, now);
    let ids = handle_ids(run.data.handles);
    match run.phase {
        PhaseView::Process => {
            if next.data.handles != run.data.handles {
                lemma_first_index(ids, run.data.queue[run.data.cursor]);
                let k = first_index(ids, run.data.queue[run.data.cursor])->0;
                if i < k {
                    i
                } else {
                    i + 1
                }
            } else {
                i
            }
        },
        PhaseView::Announce { launch, batch } => {
            if i >= run.data.handles.len() {
                let j = choose|j: int| 0 <= j < ids.len() && ids[j] == launch.task.id;
                assert(ids.contains(launch.task.id));
                assert(false);
            }
            i
        },
        _ => i,
    }
}

/// A task that was not in flight comes into flight with the time of the event.
#[verifier::rlimit(80)]
proof fn lemma_new_flight(run: RunView, event: EventView, now: u128, i: int)
    requires
        inv(run),
        0 <= i < transition(run, event, now).data.handles.len(),
        !handle_ids(run.data.handles).contains(transition(run, event, now).data.handles[i].id),
    ensures
        transition(run, event, now).data.handles[i].started_at == now,
        forall|name: Text| #[trigger]
            last_fire(transition(run, event, now).data.handles[i], name) == now,
{
    let next = transition(run, event, now);
    let ids = handle_ids(run.data.handles);
    match run.phase {
        PhaseView::Process => {
            if next.data.handles != run.data.handles {
                lemma_first_index(ids, run.data.queue[run.data.cursor]);
                let k = first_index(ids, run.data.queue[run.data.cursor])->0;
                let j = if i < k { i } else { i + 1 };
                assert(ids[j] == next.data.handles[i].id);
            } else {
                assert(ids[i] == next.data.handles[i].id);
            }
        },
        PhaseView::Announce { launch, batch } => {
            if i < run.data.handles.len() {
                assert(ids[i] == next.data.handles[i].id);
            }
        },
        _ => {
            assert(ids[i] == next.data.handles[i].id);
        },
    }
}

/// The times of a task that stays in flight go on to agree with the events.
#[verifier::rlimit(80)]
proof fn lemma_same_times(
    begin: RunView,
    events: Seq<(EventView, u128)>,
    old_flight: InFlightView,
    flight: InFlightView,
    j: int,
    workflow: WorkflowView,
)
    requires
        events.len() > 0,
        ({
            let run = after(begin, events.drop_last());
            &&& inv(run)
            &&& as_declared(run, workflow)
            &&& 0 <= j < run.data.handles.len()
            &&& old_flight == run.data.handles[j]
            &&& if run.phase is FirePeriodic && events.last().0 is Done && !run.saving && j
                == run.data.cursor {
                flight == (InFlightView {
                    last_periodic_fire: old_flight.last_periodic_fire.insert(
                        run.phase->FirePeriodic_name,
                        events.last().1,
                    ),
                    ..old_flight
                })
            } else {
                flight == old_flight
            }
        }),
        is_timed(begin, events.drop_last(), old_flight),
    ensures
        is_timed(begin, events, flight),
{
    let rest = events.drop_last();
    let run = after(begin, rest);
    let ids = handle_ids(run.data.handles);
    assert(ids[j] == flight.id);
    assert(ids.contains(flight.id));
    assert forall|name: Text| #[trigger] last_fire(flight, name) == last_run(
        begin,
        events,
        flight.id,
        name,
    ) by {
        assert(last_fire(old_flight, name) == last_run(begin, rest, flight.id, name));
        match run.phase {
            PhaseView::FirePeriodic { name: fired, batch } => {
                if j != run.data.cursor {
                    assert(ids[run.data.cursor] != ids[j]);
                }
            },
            PhaseView::Settle { batch } => {
                lemma_due_not_periodic(batch.hooks, workflow, batch.context.phase);
            },
            PhaseView::Announce { launch, batch } => {
                assert(!ids.contains(launch.task.id));
            },
            _ => {},
        }
    }
}

/// The hooks that are due on a phase are not periodic.
proof fn lemma_due_not_periodic(
    hooks: Seq<MonitoringHookView>,
    workflow: WorkflowView,
    phase: TaskPhase,
)
    requires
        exists|i: int|
            0 <= i < workflow.tasks.len() && hooks == hooks_due(
                (#[trigger] workflow.tasks[i]).monitors,
                phase,
            ),
    ensures
        hooks.len() == 1 ==> !(hooks[0].trigger is Periodic),
{
    let i = choose|i: int|
        0 <= i < workflow.tasks.len() && hooks == hooks_due(
            (#[trigger] workflow.tasks[i]).monitors,
            phase,
        );
    let due = |hook: MonitoringHookView| fires(hook.trigger, phase);
    lemma_filter_members(workflow.tasks[i].monitors, due);
    if hooks.len() == 1 {
        assert(hooks.contains(hooks[0]));
    }
}

/// When a task in flight is polled, it is terminated exactly if it declares how long it may
/// run and has been in flight for so long; if not, it is asked whether it is running. The
/// poll goes from one task to the next and leaves none out.
pub proof fn law_polled(
    workflow: WorkflowView,
    states: TaskStatesView,
    events: Seq<(EventView, u128)>,
    now: u128,
)
    requires
        workflow.wf(),
        states.wf(),
        after(initial(workflow, states), events).phase is Poll,
        !after(initial(workflow, states), events).saving,
    ensures
        ({
            let begin = initial(workflow, states);
            let run = after(begin, events);
            let next = transition(run, EventView::Done, now);
            if run.data.cursor < run.data.handles.len() {
                let id = run.data.handles[run.data.cursor].id;
                let since = in_flight_since(begin, events, id);
                &&& next.data.cursor == run.data.cursor + 1
                &&& next.data.handles == run.data.handles
                &&& next.data.states == run.data.states
                &&& exists|i: int|
                    0 <= i < workflow.tasks.len() && (#[trigger] workflow.tasks[i]).id == id && (
                    match workflow.tasks[i].mode {
                        ExecutionModeView::Direct {
                            command,
                            args,
                            env,
                            timeout_nanos: Some(timeout),
                        } => action_of(next) == (if (now >= since && now - since >= timeout)
                            || timeout == 0 {
                            ActionView::Terminate { id }
                        } else {
                            ActionView::IsRunning { id }
                        }),
                        _ => action_of(next) == (ActionView::IsRunning { id }),
                    })
            } else {
                next.phase is Process
            }
        }),
{
    let begin = initial(workflow, states);
    let run = after(begin, events);
    law_reachable(workflow, states, events);
    lemma_as_declared(workflow, states, events);
    if run.data.cursor < run.data.handles.len() {
        let flight = run.data.handles[run.data.cursor];
        lemma_timed(workflow, states, events, run.data.cursor);
        assert(is_declared(workflow, flight));
        let i = choose|i: int|
            0 <= i < workflow.tasks.len() && declares(
                workflow,
                #[trigger] workflow.tasks[i],
                flight,
            );
        assert(workflow.tasks[i].id == flight.id);
    }
}

/// When the look at the periodic hooks comes to a hook of a task in flight, the hook is run
/// exactly if it is periodic and as many seconds as it declares have passed since a hook
/// of its name of that task was last run, or since the task came into flight. The look
/// goes from one hook to the next, through all that the task declares, and from one task
/// to the next, and leaves none out.
#[verifier::rlimit(80)]
pub proof fn law_periodic_hooks(
    workflow: WorkflowView,
    states: TaskStatesView,
    events: Seq<(EventView, u128)>,
    now: u128,
)
    requires
        workflow.wf(),
        states.wf(),
        after(initial(workflow, states), events).phase is Periodic,
        !after(initial(workflow, states), events).saving,
    ensures
        ({
            let begin = initial(workflow, states);
            let run = after(begin, events);
            let next = transition(run, EventView::Done, now);
            let at = run.data.hook_cursor;
            if run.data.cursor < run.data.handles.len() {
                let id = run.data.handles[run.data.cursor].id;
                exists|i: int|
                    0 <= i < workflow.tasks.len() && (#[trigger] workflow.tasks[i]).id == id && (
                    if at < workflow.tasks[i].monitors.len() {
                        let hook = workflow.tasks[i].monitors[at];
                        let last = last_run(begin, events, id, hook.name);
                        &&& next.data.cursor == run.data.cursor
                        &&& next.data.hook_cursor == at + 1
                        &&& if (hook.trigger matches HookTrigger::Periodic { interval_secs } && ((
                        now >= last && now - last >= interval_secs * 1_000_000_000)
                            || interval_secs == 0)) {
                            &&& action_of(next) matches ActionView::FireHooks { batch }
                            &&& batch.hooks == seq![hook]
                            &&& batch.context.task_id == id
                            &&& batch.context.phase == TaskPhase::Running
                            &&& batch.context.exit_code is None
                        } else {
                            next.phase is Periodic && action_of(next) is Proceed
                        }
                    } else {
                        &&& next.phase is Periodic
                        &&& next.data.cursor == run.data.cursor + 1
                        &&& next.data.hook_cursor == 0
                    })
            } else {
                next.phase is Ready
            }
        }),
{
    let begin = initial(workflow, states);
    let run = after(begin, events);
    law_reachable(workflow, states, events);
    lemma_as_declared(workflow, states, events);
    if run.data.cursor < run.data.handles.len() {
        let flight = run.data.handles[run.data.cursor];
        lemma_timed(workflow, states, events, run.data.cursor);
        assert(is_declared(workflow, flight));
        let i = choose|i: int|
            0 <= i < workflow.tasks.len() && declares(
                workflow,
                #[trigger] workflow.tasks[i],
                flight,
            );
        assert(workflow.tasks[i].id == flight.id);
        if run.data.hook_cursor < flight.monitors.len() {
            let name = flight.monitors[run.data.hook_cursor].name;
            assert(last_fire(flight, name) == last_run(begin, events, flight.id, name));
        }
    }
}

/// When a periodic hook has been run, the look goes on where it was, and nothing has
/// changed but when the hook was last run.
pub proof fn law_periodic_hook_run(
    workflow: WorkflowView,
    states: TaskStatesView,
    events: Seq<(EventView, u128)>,
    now: u128,
)
    requires
        workflow.wf(),
        states.wf(),
        after(initial(workflow, states), events).phase is FirePeriodic,
        !after(initial(workflow, states), events).saving,
    ensures
        ({
            let run = after(initial(workflow, states), events);
            let next = transition(run, EventView::Done, now);
            &&& next.phase is Periodic && !next.saving
            &&& next.data.cursor == run.data.cursor
            &&& next.data.hook_cursor == run.data.hook_cursor
            &&& next.data.states == run.data.states
            &&& next.data.workflow == run.data.workflow
            &&& handle_ids(next.data.handles) == handle_ids(run.data.handles)
        }),
{
    let run = after(initial(workflow, states), events);
    let next = transition(run, EventView::Done, now);
    law_reachable(workflow, states, events);
    assert(handle_ids(next.data.handles) =~= handle_ids(run.data.handles));
}

/// The time at which the first round of a run began, by its events.
pub open spec fn first_round_at(begin: RunView, events: Seq<(EventView, u128)>) -> u128
    decreases events.len(),
{
    if events.len() == 0 {
        0
    } else {
        let rest = events.drop_last();
        if action_of(after(begin, events)) is CheckInterrupt && !(after(begin, rest).phase is Sleep)
            && !(action_of(after(begin, rest)) is CheckInterrupt) {
            events.last().1
        } else {
            first_round_at(begin, rest)
        }
    }
}

/// The duration of a run is the time from the beginning of its first round to its end.
pub proof fn law_duration(
    workflow: WorkflowView,
    states: TaskStatesView,
    events: Seq<(EventView, u128)>,
    now: u128,
)
    requires
        workflow.wf(),
        states.wf(),
        !(after(initial(workflow, states), events).phase is Ended),
        transition(
            after(initial(workflow, states), events),
            EventView::Done,
            now,
        ).phase matches PhaseView::Ended { outcome: Ok(_) },
    ensures
        ({
            let begin = initial(workflow, states);
            let next = transition(after(begin, events), EventView::Done, now);
            let since = first_round_at(begin, events);
            next.phase->outcome->Ok_0.duration_nanos == (if now >= since {
                now - since
            } else {
                0
            })
        }),
{
    lemma_first_round(workflow, states, events);
}

/// The time that is kept of the first round agrees with the events.
proof fn lemma_first_round(
    workflow: WorkflowView,
    states: TaskStatesView,
    events: Seq<(EventView, u128)>,
)
    ensures
        after(initial(workflow, states), events).data.started_at == first_round_at(
            initial(workflow, states),
            events,
        ),
        after(initial(workflow, states), events).phase is Interrupt ==> !after(
            initial(workflow, states),
            events,
        ).saving,
    decreases events.len(),
{
    if events.len() > 0 {
        lemma_first_round(workflow, states, events.drop_last());
    }
}

} // verus!
