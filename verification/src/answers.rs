//! What every answer to an action makes of a run and of the statuses of its tasks.

use crate::dag::DagView;
use crate::declared::{declares, lemma_as_declared};
use crate::error::WorkflowErrorView;
use crate::laws::{after, law_reachable};
use crate::model::{action_of, handle_ids, initial, transition, PhaseView, RunView};
use crate::monitoring::TaskPhase;
use crate::path::LocationView;
use crate::protocol::{ActionView, EventView};
use crate::reachable::{inv, is_running, lemma_set_all, lemma_with_pending};
use crate::skips::law_skips;
use crate::state::{TaskStatesView, TaskStatusView};
use crate::task::{task_ids, CollectFailurePolicy, ExecutionModeView, TaskView};
use crate::text::{first_index, lemma_first_index, signed_decimal, Text};
use crate::workflow::{build_outcome, law_build_outcome, WorkflowView};
use vstd::prelude::*;

verus! {

/// Whether a run asks for the hooks of a task that has come into a phase.
pub open spec fn asks_for_hooks(
    run: RunView,
    id: Text,
    phase: TaskPhase,
    exit_code: Option<i32>,
) -> bool {
    action_of(run) matches ActionView::FireHooks { batch } && batch.context.task_id == id
        && batch.context.phase == phase && batch.context.exit_code == exit_code
}

/// When the process of a task has ended with an exit code other than zero, or with none,
/// the task has failed, with a text that holds the exit code, -1 where there is none, and
/// the hooks for a failure are due. When it has ended with zero, a task that declares so
/// has its results collected, and any other has completed, with the hooks for that due.
/// No other task is touched.
#[verifier::rlimit(50)]
pub proof fn law_exit(
    workflow: WorkflowView,
    states: TaskStatesView,
    events: Seq<(EventView, u128)>,
    now: u128,
    id: Text,
    code: Option<i32>,
)
    requires
        workflow.wf(),
        states.wf(),
        action_of(after(initial(workflow, states), events)) == (ActionView::Wait { id }),
    ensures
        ({
            let run = after(initial(workflow, states), events);
            let next = transition(run, EventView::Exited { code }, now);
            &&& code is None ==> next.data.states.get(id) == Some(
                TaskStatusView::Failed { error: "exit code "@ + signed_decimal(-1) },
            )
            &&& code is Some && code->0 != 0 ==> next.data.states.get(id) == Some(
                TaskStatusView::Failed { error: "exit code "@ + signed_decimal(code->0 as int) },
            )
            &&& code != Some(0i32) ==> asks_for_hooks(next, id, TaskPhase::Failed, code)
            &&& code == Some(0i32) ==> exists|i: int|
                0 <= i < workflow.tasks.len() && (#[trigger] workflow.tasks[i]).id == id && (
                if workflow.tasks[i].collect {
                    &&& action_of(next) matches ActionView::RunCollect { id: other, workdir, policy }
                    &&& other == id
                    &&& next.data.states == run.data.states
                } else {
                    &&& next.data.states.get(id) == Some(TaskStatusView::Completed)
                    &&& asks_for_hooks(next, id, TaskPhase::Completed, Some(0))
                })
            &&& forall|other: Text|
                other != id ==> #[trigger] next.data.states.get(other) == run.data.states.get(other)
            &&& !handle_ids(next.data.handles).contains(id)
        }),
{
    let run = after(initial(workflow, states), events);
    law_reachable(workflow, states, events);
    lemma_as_declared(workflow, states, events);
    let task = run.phase->Wait_task;
    let i = choose|i: int|
        0 <= i < workflow.tasks.len() && declares(workflow, #[trigger] workflow.tasks[i], task);
    assert(workflow.tasks[i].id == id);
}

/// A task whose process cannot be waited for has failed.
pub proof fn law_lost_process(
    workflow: WorkflowView,
    states: TaskStatesView,
    events: Seq<(EventView, u128)>,
    now: u128,
    id: Text,
    error: WorkflowErrorView,
)
    requires
        workflow.wf(),
        states.wf(),
        action_of(after(initial(workflow, states), events)) == (ActionView::Wait { id }),
    ensures
        ({
            let run = after(initial(workflow, states), events);
            let next = transition(run, EventView::Failed { error }, now);
            &&& next.data.states.get(id) == Some(
                TaskStatusView::Failed { error: "process terminated"@ },
            )
            &&& asks_for_hooks(next, id, TaskPhase::Failed, None)
            &&& forall|other: Text|
                other != id ==> #[trigger] next.data.states.get(other) == run.data.states.get(other)
        }),
{
}

/// A task whose results have been collected has completed. Where they could not be
/// collected, the policy of the task decides: it has failed with the text of the failure,
/// or it has completed all the same.
pub proof fn law_collected(
    workflow: WorkflowView,
    states: TaskStatesView,
    events: Seq<(EventView, u128)>,
    now: u128,
    id: Text,
    workdir: LocationView,
    policy: CollectFailurePolicy,
    text: Text,
)
    requires
        workflow.wf(),
        states.wf(),
        action_of(after(initial(workflow, states), events)) == (ActionView::RunCollect {
            id,
            workdir,
            policy,
        }),
    ensures
        ({
            let run = after(initial(workflow, states), events);
            let done = transition(run, EventView::Done, now);
            let failed = transition(run, EventView::StepFailed { text }, now);
            &&& done.data.states.get(id) == Some(TaskStatusView::Completed)
            &&& asks_for_hooks(done, id, TaskPhase::Completed, Some(0))
            &&& policy == CollectFailurePolicy::FailTask ==> failed.data.states.get(id) == Some(
                TaskStatusView::Failed { error: text },
            ) && asks_for_hooks(failed, id, TaskPhase::Failed, Some(0))
            &&& policy == CollectFailurePolicy::WarnOnly ==> failed.data.states.get(id) == Some(
                TaskStatusView::Completed,
            ) && asks_for_hooks(failed, id, TaskPhase::Completed, Some(0))
            &&& forall|other: Text| #![trigger run.data.states.get(other)]
                other != id ==> done.data.states.get(other) == run.data.states.get(other)
                    && failed.data.states.get(other) == run.data.states.get(other)
        }),
{
}

/// A task has completed in a run only where its process has been waited for and ended with
/// the exit code zero.
pub proof fn law_completed_after_zero(
    workflow: WorkflowView,
    states: TaskStatesView,
    events: Seq<(EventView, u128)>,
    id: Text,
)
    requires
        workflow.wf(),
        states.wf(),
        states.get(id) != Some(TaskStatusView::Completed),
        after(initial(workflow, states), events).data.states.get(id) == Some(
            TaskStatusView::Completed,
        ),
    ensures
        exists|k: int|
            0 <= k < events.len() && (#[trigger] events[k]).0 == (EventView::Exited {
                code: Some(0i32),
            }) && action_of(after(initial(workflow, states), events.take(k))) == (
            ActionView::Wait { id }),
{
    lemma_zero_before(workflow, states, events, id);
}

/// Before a task completes or has its results collected, its process ended with zero.
#[verifier::rlimit(80)]
proof fn lemma_zero_before(
    workflow: WorkflowView,
    states: TaskStatesView,
    events: Seq<(EventView, u128)>,
    id: Text,
)
    requires
        workflow.wf(),
        states.wf(),
        states.get(id) != Some(TaskStatusView::Completed),
    ensures
        ({
            let begin = initial(workflow, states);
            let run = after(begin, events);
            run.data.states.get(id) == Some(TaskStatusView::Completed) || (
            run.phase matches PhaseView::Collect { task } && task.id == id) ==> exists|k: int|
                0 <= k < events.len() && (#[trigger] events[k]).0 == (EventView::Exited {
                    code: Some(0i32),
                }) && action_of(after(begin, events.take(k))) == (ActionView::Wait { id })
        }),
    decreases events.len(),
{
    let begin = initial(workflow, states);
    if events.len() > 0 {
        let rest = events.drop_last();
        let before = after(begin, rest);
        let run = after(begin, events);
        let n = rest.len() as int;
        lemma_zero_before(workflow, states, rest, id);
        law_reachable(workflow, states, rest);
        assert(events.take(n) =~= rest);
        assert(events[n] == events.last());
        let was = before.data.states.get(id) == Some(TaskStatusView::Completed) || (
        before.phase matches PhaseView::Collect { task } && task.id == id);
        let is = run.data.states.get(id) == Some(TaskStatusView::Completed) || (
        run.phase matches PhaseView::Collect { task } && task.id == id);
        if was {
            let k = choose|k: int|
                0 <= k < rest.len() && (#[trigger] rest[k]).0 == (EventView::Exited {
                    code: Some(0i32),
                }) && action_of(after(begin, rest.take(k))) == (ActionView::Wait { id });
            assert(events[k] == rest[k]);
            assert(events.take(k) =~= rest.take(k));
        } else if is {
            lemma_becomes_completed(before, events.last().0, events.last().1, id);
        }
    }
}

/// A step completes a task, or has its results collected, on the exit code zero only.
#[verifier::rlimit(80)]
proof fn lemma_becomes_completed(run: RunView, event: EventView, now: u128, id: Text)
    requires
        inv(run),
        run.data.states.get(id) != Some(TaskStatusView::Completed),
        !(run.phase matches PhaseView::Collect { task } && task.id == id),
        ({
            let next = transition(run, event, now);
            next.data.states.get(id) == Some(TaskStatusView::Completed) || (
            next.phase matches PhaseView::Collect { task } && task.id == id)
        }),
    ensures
        event == (EventView::Exited { code: Some(0i32) }),
        action_of(run) == (ActionView::Wait { id }),
{
    let data = run.data;
    match run.phase {
        PhaseView::Build => {
            law_build_outcome(data.workflow.tasks);
            lemma_with_pending(data.states, task_ids(data.workflow.tasks));
            let states = data.states.with_pending(task_ids(data.workflow.tasks));
            assert(states.status.contains_key(id) <==> data.states.status.contains_key(id)
                || task_ids(data.workflow.tasks).contains(id));
        },
        PhaseView::Interrupt => {
            let ids = handle_ids(data.handles);
            lemma_set_all(data.states, ids, TaskStatusView::Pending);
            let states = data.states.set_all(ids, TaskStatusView::Pending);
            assert(states.status.contains_key(id) <==> data.states.status.contains_key(id)
                || ids.contains(id));
        },
        _ => {},
    }
}

/// A task whose step before the start has failed has failed with the text of the failure,
/// and the statuses are stored; nothing has come into flight.
pub proof fn law_setup_failed(
    workflow: WorkflowView,
    states: TaskStatesView,
    events: Seq<(EventView, u128)>,
    now: u128,
    id: Text,
    workdir: LocationView,
    text: Text,
)
    requires
        workflow.wf(),
        states.wf(),
        action_of(after(initial(workflow, states), events)) == (ActionView::RunSetup {
            id,
            workdir,
        }),
    ensures
        ({
            let run = after(initial(workflow, states), events);
            let next = transition(run, EventView::StepFailed { text }, now);
            &&& next.data.states.get(id) == Some(TaskStatusView::Failed { error: text })
            &&& action_of(next) is Save
            &&& next.data.handles == run.data.handles
            &&& forall|other: Text|
                other != id ==> #[trigger] next.data.states.get(other) == run.data.states.get(other)
        }),
{
}

/// When a task is to be started, after the step before the start if there is one: one that
/// declares a process has it spawned, one for the queue is handed to it, and where there
/// is no queue, it fails, with a text that says so, and the statuses are stored.
#[verifier::rlimit(50)]
pub proof fn law_started_as_declared(
    workflow: WorkflowView,
    states: TaskStatesView,
    events: Seq<(EventView, u128)>,
    now: u128,
    task: TaskView,
)
    requires
        workflow.wf(),
        states.wf(),
        after(initial(workflow, states), events).phase matches PhaseView::Launch { launch }
            && launch.task.id == task.id,
        !after(initial(workflow, states), events).saving,
        workflow.tasks.contains(task),
    ensures
        ({
            let run = after(initial(workflow, states), events);
            let next = transition(run, EventView::Done, now);
            match task.mode {
                ExecutionModeView::Direct { command, args, env, timeout_nanos } => action_of(
                    run,
                ) matches ActionView::Spawn { id, workdir, command: c, args: a, env: e } && id
                    == task.id && c == command && a == args && e == env,
                ExecutionModeView::Queued => if workflow.queued_submitter is Some {
                    action_of(run) matches ActionView::Submit { id, workdir, log_dir } && id
                        == task.id
                } else {
                    &&& action_of(run) is Proceed
                    &&& next.data.states.get(task.id) == Some(
                        TaskStatusView::Failed {
                            error: "task '"@ + task.id
                                + "': Queued mode requires a QueuedSubmitter"@,
                        },
                    )
                    &&& action_of(next) is Save
                    &&& next.data.handles == run.data.handles
                },
            }
        }),
{
    let run = after(initial(workflow, states), events);
    law_reachable(workflow, states, events);
    let launch = run.phase->Launch_launch;
    let ids = task_ids(workflow.tasks);
    let i = choose|i: int| 0 <= i < workflow.tasks.len() && workflow.tasks[i] == task;
    let j = choose|j: int| 0 <= j < workflow.tasks.len() && workflow.tasks[j] == launch.task;
    assert(ids[i] == ids[j]);
}

/// Whether a run asks for the process or the job of a task.
pub open spec fn asks_for_process(run: RunView, id: Text) -> bool {
    ||| action_of(run) matches ActionView::Spawn { id: other, workdir, command, args, env }
        && other == id
    ||| action_of(run) matches ActionView::Submit { id: other, workdir, log_dir } && other == id
}

/// A task that could not be started has failed with the message of the error, and the
/// statuses are stored; nothing has come into flight.
pub proof fn law_start_failed(
    workflow: WorkflowView,
    states: TaskStatesView,
    events: Seq<(EventView, u128)>,
    now: u128,
    id: Text,
    error: WorkflowErrorView,
)
    requires
        workflow.wf(),
        states.wf(),
        asks_for_process(after(initial(workflow, states), events), id),
    ensures
        ({
            let run = after(initial(workflow, states), events);
            let next = transition(run, EventView::Failed { error }, now);
            &&& next.data.states.get(id) == Some(TaskStatusView::Failed { error: error.message() })
            &&& action_of(next) is Save
            &&& next.data.handles == run.data.handles
            &&& forall|other: Text|
                other != id ==> #[trigger] next.data.states.get(other) == run.data.states.get(other)
        }),
{
}

/// A task that has been started has the hooks for a start run, and is in flight when they
/// have been; what was in flight stays, and no status changes.
pub proof fn law_started(
    workflow: WorkflowView,
    states: TaskStatesView,
    events: Seq<(EventView, u128)>,
    now: u128,
    later: u128,
    id: Text,
)
    requires
        workflow.wf(),
        states.wf(),
        asks_for_process(after(initial(workflow, states), events), id),
    ensures
        ({
            let run = after(initial(workflow, states), events);
            let next = transition(run, EventView::Done, now);
            let flying = transition(next, EventView::Done, later);
            &&& asks_for_hooks(next, id, TaskPhase::Running, None)
            &&& next.data.handles == run.data.handles
            &&& handle_ids(flying.data.handles) == handle_ids(run.data.handles).push(id)
            &&& flying.data.states == run.data.states
            &&& flying.data.states.get(id) == Some(TaskStatusView::Running)
        }),
{
    let run = after(initial(workflow, states), events);
    law_reachable(workflow, states, events);
    let next = transition(run, EventView::Done, now);
    let flying = transition(next, EventView::Done, later);
    assert(handle_ids(flying.data.handles) =~= handle_ids(run.data.handles).push(id));
}

/// A task comes into flight only when it has been started and the hooks for its start
/// have been run.
#[verifier::rlimit(50)]
pub proof fn law_comes_into_flight(
    workflow: WorkflowView,
    states: TaskStatesView,
    events: Seq<(EventView, u128)>,
    event: EventView,
    now: u128,
    id: Text,
)
    requires
        workflow.wf(),
        states.wf(),
        !handle_ids(after(initial(workflow, states), events).data.handles).contains(id),
        handle_ids(
            transition(after(initial(workflow, states), events), event, now).data.handles,
        ).contains(id),
    ensures
        asks_for_hooks(after(initial(workflow, states), events), id, TaskPhase::Running, None),
        event is Done,
{
    let run = after(initial(workflow, states), events);
    let next = transition(run, event, now);
    law_reachable(workflow, states, events);
    lemma_as_declared(workflow, states, events);
    let ids = handle_ids(run.data.handles);
    let new = handle_ids(next.data.handles);
    let k = choose|k: int| 0 <= k < new.len() && new[k] == id;
    match run.phase {
        PhaseView::Process => {
            lemma_first_index(ids, run.data.queue[run.data.cursor]);
            if next.data.handles != run.data.handles {
                let i = first_index(ids, run.data.queue[run.data.cursor])->0;
                let j = if k < i { k } else { k + 1 };
                assert(ids[j] == id);
            }
        },
        PhaseView::FirePeriodic { name, batch } => {
            assert(ids =~= new);
        },
        PhaseView::Announce { launch, batch } => {
            if event is Done && !run.saving {
                assert(new =~= ids.push(launch.task.id));
                if k < ids.len() {
                    assert(ids[k] == id);
                }
            }
        },
        _ => {},
    }
}

/// A step changes the status of a task only so: it is given one at the beginning, it is
/// taken up, it fails to start or to end well, it completes, its time is up, it is left
/// out, or it waits again after an interrupt.
#[verifier::rlimit(80)]
pub proof fn law_status_changes(
    workflow: WorkflowView,
    states: TaskStatesView,
    events: Seq<(EventView, u128)>,
    event: EventView,
    now: u128,
    id: Text,
)
    requires
        workflow.wf(),
        states.wf(),
        transition(after(initial(workflow, states), events), event, now).data.states.get(id)
            != after(initial(workflow, states), events).data.states.get(id),
    ensures
        ({
            let run = after(initial(workflow, states), events);
            let old_status = run.data.states.get(id);
            let new_status = transition(run, event, now).data.states.get(id);
            match action_of(run) {
                ActionView::Proceed => event is Done && {
                    ||| old_status is None && new_status == Some(TaskStatusView::Pending)
                    ||| old_status == Some(TaskStatusView::Pending) && new_status == Some(
                        TaskStatusView::Running,
                    )
                    ||| old_status == Some(TaskStatusView::Pending) && new_status == Some(
                        TaskStatusView::SkippedDueToDependencyFailure,
                    )
                    ||| old_status == Some(TaskStatusView::Running) && new_status == Some(
                        TaskStatusView::Failed {
                            error: "task '"@ + id + "': Queued mode requires a QueuedSubmitter"@,
                        },
                    ) && workflow.queued_submitter is None
                },
                ActionView::CheckInterrupt => event == (EventView::Interrupted { yes: true })
                    && old_status == Some(TaskStatusView::Running) && new_status == Some(
                    TaskStatusView::Pending,
                ) && handle_ids(run.data.handles).contains(id),
                ActionView::Terminate { id: other } => other == id && old_status == Some(
                    TaskStatusView::Running,
                ) && new_status == Some(
                    TaskStatusView::Failed { error: WorkflowErrorView::TaskTimeout(id).message() },
                ),
                ActionView::Wait { id: other } => other == id && old_status == Some(
                    TaskStatusView::Running,
                ) && (new_status->0 is Failed || new_status->0 is Completed),
                ActionView::RunCollect { id: other, workdir, policy } => other == id && old_status
                    == Some(TaskStatusView::Running) && (new_status->0 is Failed
                    || new_status->0 is Completed),
                ActionView::RunSetup { id: other, workdir } => other == id && old_status == Some(
                    TaskStatusView::Running,
                ) && new_status->0 is Failed,
                ActionView::Spawn { id: other, workdir, command, args, env } => other == id
                    && old_status == Some(TaskStatusView::Running) && new_status->0 is Failed,
                ActionView::Submit { id: other, workdir, log_dir } => other == id && old_status
                    == Some(TaskStatusView::Running) && new_status->0 is Failed,
                _ => false,
            }
        }),
{
    let run = after(initial(workflow, states), events);
    law_reachable(workflow, states, events);
    let data = run.data;
    match run.phase {
        PhaseView::Build => {
            law_build_outcome(data.workflow.tasks);
            lemma_with_pending(data.states, task_ids(data.workflow.tasks));
            let given = data.states.with_pending(task_ids(data.workflow.tasks));
            assert(given.status.contains_key(id) <==> data.states.status.contains_key(id)
                || task_ids(data.workflow.tasks).contains(id));
        },
        PhaseView::Interrupt => {
            let ids = handle_ids(data.handles);
            lemma_set_all(data.states, ids, TaskStatusView::Pending);
            let given = data.states.set_all(ids, TaskStatusView::Pending);
            assert(given.status.contains_key(id) <==> data.states.status.contains_key(id)
                || ids.contains(id));
            if ids.contains(id) {
                let i = choose|i: int| 0 <= i < ids.len() && ids[i] == id;
                assert(is_running(data.states, data.handles[i].id));
            }
        },
        PhaseView::Expire { id: other } => {
            assert(is_running(data.states, data.handles[data.cursor - 1].id));
        },
        PhaseView::Skips => {
            law_skips(data.dag.nodes, data.states, data.workflow.tasks, id);
        },
        _ => {},
    }
}

/// A task whose process was terminated because its time was up has failed, with a text that
/// names it, is noted as finished, and the statuses are stored; no other task is touched.
pub proof fn law_terminated(run: RunView, now: u128, id: Text)
    requires
        action_of(run) == (ActionView::Terminate { id }),
    ensures
        ({
            let next = transition(run, EventView::Done, now);
            &&& next.data.states.get(id) == Some(
                TaskStatusView::Failed { error: "task '"@ + id + "' timed out"@ },
            )
            &&& next.data.queue == run.data.queue.push(id)
            &&& next.data.handles == run.data.handles
            &&& next.data.workflow == run.data.workflow
            &&& next.data.cursor == run.data.cursor
            &&& action_of(next) is Save
            &&& forall|other: Text|
                other != id ==> #[trigger] next.data.states.get(other) == run.data.states.get(other)
        }),
{
}

/// When the statuses have been stored, the run goes on where it was, and nothing has changed.
pub proof fn law_stored_and_on(run: RunView, now: u128)
    requires
        action_of(run) is Save,
    ensures
        ({
            let next = transition(run, EventView::Done, now);
            &&& next.data == run.data
            &&& next.phase == run.phase
            &&& !(action_of(next) is Save)
        }),
{
}

/// When the graph is to be built: if that fails, the run has ended with the error, and nothing
/// has changed. If not, every task of the workflow has a status, pending where it had none,
/// no other status has changed, and the statuses are stored; then the first round begins.
#[verifier::rlimit(50)]
pub proof fn law_built(
    workflow: WorkflowView,
    states: TaskStatesView,
    events: Seq<(EventView, u128)>,
    now: u128,
    id: Text,
)
    requires
        workflow.wf(),
        states.wf(),
        after(initial(workflow, states), events).phase is Build,
        !after(initial(workflow, states), events).saving,
    ensures
        ({
            let run = after(initial(workflow, states), events);
            let next = transition(run, EventView::Done, now);
            let begun = transition(transition(next, EventView::Done, now), EventView::Done, now);
            match build_outcome(workflow.tasks) {
                Err(error) => next.phase == (PhaseView::Ended { outcome: Err(error) })
                    && next.data.states == run.data.states,
                Ok(_) => {
                    &&& next.data.states.get(id) == (if run.data.states.get(id) is None
                        && task_ids(workflow.tasks).contains(id) {
                        Some(TaskStatusView::Pending)
                    } else {
                        run.data.states.get(id)
                    })
                    &&& next.data.workflow.tasks == workflow.tasks
                    &&& next.data.handles.len() == 0
                    &&& action_of(next) is Save
                    &&& action_of(begun) is CheckInterrupt
                    &&& begun.data.states == next.data.states
                },
            }
        }),
{
    let run = after(initial(workflow, states), events);
    law_reachable(workflow, states, events);
    law_build_outcome(workflow.tasks);
    let ids = task_ids(workflow.tasks);
    lemma_with_pending(run.data.states, ids);
    let given = run.data.states.with_pending(ids);
    assert(given.status.contains_key(id) <==> run.data.states.status.contains_key(id)
        || ids.contains(id));
}

/// A task that declares a step before its start is started only when that step has been asked
/// for and was taken.
pub proof fn law_setup_is_taken(
    workflow: WorkflowView,
    states: TaskStatesView,
    events: Seq<(EventView, u128)>,
    task: TaskView,
)
    requires
        workflow.wf(),
        states.wf(),
        workflow.tasks.contains(task),
        task.setup,
        asks_for_process(after(initial(workflow, states), events), task.id),
    ensures
        exists|k: int|
            0 <= k < events.len() && (#[trigger] events[k]).0 is Done && (action_of(
                after(initial(workflow, states), events.take(k)),
            ) matches ActionView::RunSetup { id, workdir } && id == task.id),
{
    let run = after(initial(workflow, states), events);
    law_reachable(workflow, states, events);
    lemma_setup_taken(workflow, states, events);
    let launch = run.phase->Launch_launch;
    let ids = task_ids(workflow.tasks);
    let i = choose|i: int| 0 <= i < workflow.tasks.len() && workflow.tasks[i] == task;
    let j = choose|j: int| 0 <= j < workflow.tasks.len() && workflow.tasks[j] == launch.task;
    assert(ids[i] == ids[j]);
}

/// What is being started has had its step before the start taken, if it declares one.
#[verifier::rlimit(50)]
proof fn lemma_setup_taken(
    workflow: WorkflowView,
    states: TaskStatesView,
    events: Seq<(EventView, u128)>,
)
    ensures
        ({
            let begin = initial(workflow, states);
            after(begin, events).phase matches PhaseView::Launch { launch } ==> (launch.task.setup
                ==> exists|k: int|
                0 <= k < events.len() && (#[trigger] events[k]).0 is Done && (action_of(
                    after(begin, events.take(k)),
                ) matches ActionView::RunSetup { id, workdir } && id == launch.task.id))
        }),
        after(initial(workflow, states), events).phase is Setup ==> !after(
            initial(workflow, states),
            events,
        ).saving,
    decreases events.len(),
{
    let begin = initial(workflow, states);
    if events.len() > 0 {
        let rest = events.drop_last();
        let before = after(begin, rest);
        let run = after(begin, events);
        let n = rest.len() as int;
        lemma_setup_taken(workflow, states, rest);
        assert(events.take(n) =~= rest);
        assert(events[n] == events.last());
        if let PhaseView::Launch { launch } = run.phase {
            if launch.task.setup && before.phase == run.phase {
                let k = choose|k: int|
                    0 <= k < rest.len() && (#[trigger] rest[k]).0 is Done && (action_of(
                        after(begin, rest.take(k)),
                    ) matches ActionView::RunSetup { id, workdir } && id == launch.task.id);
                assert(events[k] == rest[k]);
                assert(events.take(k) =~= rest.take(k));
            }
        }
    }
}

/// An event that does not answer the action that is due changes nothing.
pub proof fn law_stray_event(run: RunView, event: EventView, now: u128)
    requires
        match action_of(run) {
            ActionView::Proceed => !(event is Done) && !(event is Failed),
            ActionView::CreateLogDir { dir } => !(event is Done) && !(event is Failed),
            ActionView::Save => !(event is Done) && !(event is Failed),
            ActionView::CheckInterrupt => !(event is Interrupted),
            ActionView::TerminateAll { ids } => !(event is Done),
            ActionView::Terminate { id } => !(event is Done),
            ActionView::IsRunning { id } => !(event is Running),
            ActionView::Wait { id } => !(event is Exited) && !(event is Failed),
            ActionView::RunCollect { id, workdir, policy } => !(event is Done)
                && !(event is StepFailed),
            ActionView::FireHooks { batch } => !(event is Done),
            ActionView::RunSetup { id, workdir } => !(event is Done) && !(event is StepFailed),
            ActionView::Spawn { id, workdir, command, args, env } => !(event is Done)
                && !(event is Failed),
            ActionView::Submit { id, workdir, log_dir } => !(event is Done) && !(event is Failed),
            ActionView::Sleep { millis } => !(event is Done),
            ActionView::Finish => true,
        },
    ensures
        transition(run, event, now) == run,
{
}

/// The run lets 50 milliseconds pass between two rounds.
pub proof fn law_pause(run: RunView, millis: u64)
    requires
        action_of(run) == (ActionView::Sleep { millis }),
    ensures
        millis == 50,
{
}

/// A workflow with a directory for log files has it created before anything else, where
/// it lies: an absolute one as it is, a relative one below the root directory, if there is
/// one. If that fails, the run has ended with the error, and no status has changed. No
/// other directory is created.
pub proof fn law_log_dir(
    workflow: WorkflowView,
    states: TaskStatesView,
    events: Seq<(EventView, u128)>,
    now: u128,
    error: WorkflowErrorView,
)
    requires
        workflow.wf(),
        states.wf(),
    ensures
        ({
            let begin = initial(workflow, states);
            let failed = transition(begin, EventView::Failed { error }, now);
            &&& workflow.log_dir matches Some(dir) ==> action_of(begin) == (
            ActionView::CreateLogDir {
                dir: LocationView {
                    root: if dir.absolute {
                        None
                    } else {
                        workflow.root_dir
                    },
                    path: dir.text,
                },
            }) && failed.phase == (PhaseView::Ended { outcome: Err(error) })
                && failed.data.states == states
            &&& workflow.log_dir is None ==> action_of(begin) is Proceed
            &&& action_of(after(begin, events)) is CreateLogDir ==> action_of(after(begin, events))
                == action_of(begin)
        }),
{
    law_reachable(workflow, states, events);
}

/// A run ends with an error only where its graph cannot be built, where the directory for
/// log files or the statuses could not be written, with the error that was told, or after
/// an interrupt.
pub proof fn law_error_has_a_cause(
    workflow: WorkflowView,
    states: TaskStatesView,
    events: Seq<(EventView, u128)>,
    event: EventView,
    now: u128,
    error: WorkflowErrorView,
)
    requires
        workflow.wf(),
        states.wf(),
        !(after(initial(workflow, states), events).phase is Ended),
        transition(after(initial(workflow, states), events), event, now).phase == (
        PhaseView::Ended { outcome: Err(error) }),
    ensures
        ({
            let run = after(initial(workflow, states), events);
            ||| (action_of(run) is Save || action_of(run) is CreateLogDir) && event == (
            EventView::Failed { error })
            ||| action_of(run) is TerminateAll && error == WorkflowErrorView::Interrupted
            ||| action_of(run) is Proceed && build_outcome(workflow.tasks)
                == Err::<DagView, WorkflowErrorView>(error)
        }),
{
    law_reachable(workflow, states, events);
    lemma_log_dir_phase(workflow, states, events);
}

/// A directory for log files is created only where there is to be one.
proof fn lemma_log_dir_phase(
    workflow: WorkflowView,
    states: TaskStatesView,
    events: Seq<(EventView, u128)>,
)
    ensures
        after(initial(workflow, states), events).phase is LogDir ==> {
            &&& workflow.log_dir is Some
            &&& after(initial(workflow, states), events) == initial(workflow, states)
        },
    decreases events.len(),
{
    if events.len() > 0 {
        lemma_log_dir_phase(workflow, states, events.drop_last());
    }
}

} // verus!
