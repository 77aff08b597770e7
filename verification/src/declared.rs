//! A run asks for what the tasks of its workflow declare, and for nothing else.

use crate::laws::{after, law_reachable};
use crate::lists::lemma_filter_same;
use crate::model::{
    action_of, initial, transition, InFlightView, LaunchView, PhaseView, RunView,
};
use crate::monitoring::{
    fires, hooks_due, HookBatchView, HookContextView, HookTrigger, MonitoringHookView, TaskPhase,
};
use crate::path::{resolved, LocationView};
use crate::protocol::{ActionView, EventView};
use crate::reachable::{comes_from, inv, launched};
use crate::state::TaskStatesView;
use crate::task::{CollectFailurePolicy, ExecutionModeView, TaskView};
use crate::text::{first_index, lemma_first_index, Text};
use crate::workflow::WorkflowView;
use vstd::prelude::*;

verus! {

/// Whether a task in flight is as a task of the workflow declares it.
pub open spec fn declares(workflow: WorkflowView, task: TaskView, flight: InFlightView) -> bool {
    &&& flight.id == task.id
    &&& flight.monitors == task.monitors
    &&& flight.collect == task.collect
    &&& flight.collect_failure_policy == task.collect_failure_policy
    &&& flight.timeout_nanos == task.mode.timeout()
    &&& flight.workdir == resolved(task.workdir, workflow.root_dir)
}

/// Whether a task in flight is as some task of the workflow declares it.
pub open spec fn is_declared(workflow: WorkflowView, flight: InFlightView) -> bool {
    exists|i: int|
        0 <= i < workflow.tasks.len() && declares(workflow, #[trigger] workflow.tasks[i], flight)
}

/// Whether hooks of a task that has entered a phase are those that it declares.
pub open spec fn is_declared_batch(workflow: WorkflowView, batch: HookBatchView) -> bool {
    exists|i: int|
        0 <= i < workflow.tasks.len() && (#[trigger] workflow.tasks[i]).id
            == batch.context.task_id && batch.context.workdir == resolved(
            workflow.tasks[i].workdir,
            workflow.root_dir,
        ) && batch.hooks == hooks_due(workflow.tasks[i].monitors, batch.context.phase)
}

/// What is in flight and in hand is as the tasks of the workflow declare it.
pub open spec fn as_declared(run: RunView, workflow: WorkflowView) -> bool {
    &&& forall|i: int|
        0 <= i < run.data.handles.len() ==> is_declared(workflow, #[trigger] run.data.handles[i])
    &&& launched(run.phase) is Some ==> is_launched_there(run.phase, workflow)
    &&& match run.phase {
        PhaseView::Wait { task } => is_declared(workflow, task),
        PhaseView::Collect { task } => is_declared(workflow, task) && task.collect,
        PhaseView::Setup { launch } => launch.task.setup,
        PhaseView::Settle { batch } => is_declared_batch(workflow, batch) && batch.context.phase
            != TaskPhase::Running,
        PhaseView::Announce { launch, batch } => batch == (HookBatchView {
            hooks: hooks_due(launch.task.monitors, TaskPhase::Running),
            context: HookContextView {
                task_id: launch.task.id,
                workdir: launch.workdir,
                phase: TaskPhase::Running,
                exit_code: None,
            },
        }),
        PhaseView::FirePeriodic { name, batch } => {
            &&& 0 <= run.data.cursor < run.data.handles.len()
            &&& batch.context == (HookContextView {
                task_id: run.data.handles[run.data.cursor].id,
                workdir: run.data.handles[run.data.cursor].workdir,
                phase: TaskPhase::Running,
                exit_code: None,
            })
            &&& batch.hooks.len() == 1
            &&& batch.hooks[0].name == name
            &&& batch.hooks[0].trigger is Periodic
            &&& run.data.handles[run.data.cursor].monitors.contains(batch.hooks[0])
        },
        _ => true,
    }
}

/// Whether a task that is being started works where it declares.
pub open spec fn is_launched_there(phase: PhaseView, workflow: WorkflowView) -> bool {
    match phase {
        PhaseView::Setup { launch } => works_there(launch, workflow),
        PhaseView::Launch { launch } => works_there(launch, workflow),
        PhaseView::Announce { launch, batch } => works_there(launch, workflow),
        _ => true,
    }
}

/// Whether a task that is being started works where it declares.
pub open spec fn works_there(launch: LaunchView, workflow: WorkflowView) -> bool {
    launch.workdir == resolved(launch.task.workdir, workflow.root_dir)
}

/// Every step keeps to what is declared.
#[verifier::rlimit(80)]
proof fn lemma_declared_step(run: RunView, event: EventView, now: u128, workflow: WorkflowView)
    requires
        inv(run),
        comes_from(run, workflow),
        as_declared(run, workflow),
    ensures
        as_declared(transition(run, event, now), workflow),
{
    let data = run.data;
    let next = transition(run, event, now);
    match run.phase {
        PhaseView::Wait { task } => {
            let i = choose|i: int|
                0 <= i < workflow.tasks.len() && declares(
                    workflow,
                    #[trigger] workflow.tasks[i],
                    task,
                );
            assert(workflow.tasks[i].id == task.id);
        },
        PhaseView::Collect { task } => {
            let i = choose|i: int|
                0 <= i < workflow.tasks.len() && declares(
                    workflow,
                    #[trigger] workflow.tasks[i],
                    task,
                );
            assert(workflow.tasks[i].id == task.id);
        },
        PhaseView::Process => {
            assert forall|k: int| 0 <= k < next.data.handles.len() implies is_declared(
                workflow,
                #[trigger] next.data.handles[k],
            ) by {
                if next.data.handles != data.handles {
                    let ids = crate::model::handle_ids(data.handles);
                    let id = data.queue[data.cursor];
                    lemma_first_index(ids, id);
                    let i = first_index(ids, id)->0;
                    let j = if k < i { k } else { k + 1 };
                    assert(next.data.handles[k] == data.handles[j]);
                }
            }
            if next.phase is Wait {
                let ids = crate::model::handle_ids(data.handles);
                lemma_first_index(ids, data.queue[data.cursor]);
                let i = first_index(ids, data.queue[data.cursor])->0;
                assert(is_declared(workflow, data.handles[i]));
            }
        },
        PhaseView::Periodic => {
            if next.phase is FirePeriodic {
                let task = data.handles[data.cursor];
                assert(task.monitors.contains(task.monitors[data.hook_cursor]));
            }
        },
        PhaseView::FirePeriodic { name, batch } => {
            assert forall|k: int| 0 <= k < next.data.handles.len() implies is_declared(
                workflow,
                #[trigger] next.data.handles[k],
            ) by {
                assert(is_declared(workflow, data.handles[k]));
                let i = choose|i: int|
                    0 <= i < workflow.tasks.len() && declares(
                        workflow,
                        #[trigger] workflow.tasks[i],
                        data.handles[k],
                    );
                assert(declares(workflow, workflow.tasks[i], next.data.handles[k]));
            }
        },
        PhaseView::Announce { launch, batch } => {
            assert forall|k: int| 0 <= k < next.data.handles.len() implies is_declared(
                workflow,
                #[trigger] next.data.handles[k],
            ) by {
                if k < data.handles.len() {
                    assert(next.data.handles[k] == data.handles[k]);
                } else {
                    let i = choose|i: int|
                        0 <= i < workflow.tasks.len() && workflow.tasks[i] == launch.task;
                    assert(declares(workflow, workflow.tasks[i], next.data.handles[k]));
                }
            }
        },
        _ => {},
    }
}

/// Every run keeps to what is declared.
pub proof fn lemma_as_declared(
    workflow: WorkflowView,
    states: TaskStatesView,
    events: Seq<(EventView, u128)>,
)
    requires
        workflow.wf(),
        states.wf(),
    ensures
        as_declared(after(initial(workflow, states), events), workflow),
    decreases events.len(),
{
    if events.len() > 0 {
        let rest = events.drop_last();
        lemma_as_declared(workflow, states, rest);
        law_reachable(workflow, states, rest);
        lemma_declared_step(
            after(initial(workflow, states), rest),
            events.last().0,
            events.last().1,
            workflow,
        );
    }
}

/// A process is spawned with the command, the arguments and the environment that a task
/// of the workflow declares, in the directory that it declares: an absolute one as it is,
/// a relative one below the root directory of the workflow, if there is one.
pub proof fn law_spawn_as_declared(
    workflow: WorkflowView,
    states: TaskStatesView,
    events: Seq<(EventView, u128)>,
    id: Text,
    workdir: LocationView,
    command: Text,
    args: Seq<Text>,
    env: Seq<(Text, Text)>,
)
    requires
        workflow.wf(),
        states.wf(),
        action_of(after(initial(workflow, states), events)) == (ActionView::Spawn {
            id,
            workdir,
            command,
            args,
            env,
        }),
    ensures
        exists|i: int|
            0 <= i < workflow.tasks.len() && (#[trigger] workflow.tasks[i]).id == id
                && workflow.tasks[i].mode == (ExecutionModeView::Direct {
                command,
                args,
                env,
                timeout_nanos: workflow.tasks[i].mode->Direct_timeout_nanos,
            }) && workdir.path == workflow.tasks[i].workdir.text && workdir.root == (
            if workflow.tasks[i].workdir.absolute {
                None
            } else {
                workflow.root_dir
            }),
{
    let run = after(initial(workflow, states), events);
    law_reachable(workflow, states, events);
    lemma_as_declared(workflow, states, events);
    let launch = run.phase->Launch_launch;
    let i = choose|i: int| 0 <= i < workflow.tasks.len() && workflow.tasks[i] == launch.task;
    assert(workflow.tasks[i].id == id);
}

/// What is handed to the queue is a task of the workflow that declares so, with the
/// directory that it declares, and with the directory for log files of the workflow, or
/// its own where the workflow has none.
pub proof fn law_submit_as_declared(
    workflow: WorkflowView,
    states: TaskStatesView,
    events: Seq<(EventView, u128)>,
    id: Text,
    workdir: LocationView,
    log_dir: LocationView,
)
    requires
        workflow.wf(),
        states.wf(),
        action_of(after(initial(workflow, states), events)) == (ActionView::Submit {
            id,
            workdir,
            log_dir,
        }),
    ensures
        workflow.queued_submitter is Some,
        exists|i: int|
            0 <= i < workflow.tasks.len() && (#[trigger] workflow.tasks[i]).id == id
                && workflow.tasks[i].mode is Queued && workdir.path
                == workflow.tasks[i].workdir.text && workdir.root == (
            if workflow.tasks[i].workdir.absolute {
                None
            } else {
                workflow.root_dir
            }),
        match workflow.log_dir {
            Some(dir) => log_dir.path == dir.text && log_dir.root == (if dir.absolute {
                None
            } else {
                workflow.root_dir
            }),
            None => log_dir == workdir,
        },
{
    let run = after(initial(workflow, states), events);
    law_reachable(workflow, states, events);
    lemma_as_declared(workflow, states, events);
    let launch = run.phase->Launch_launch;
    let i = choose|i: int| 0 <= i < workflow.tasks.len() && workflow.tasks[i] == launch.task;
    assert(workflow.tasks[i].id == id);
}

/// The step before the start is asked for only of a task that declares one, in the
/// directory that it declares.
pub proof fn law_setup_as_declared(
    workflow: WorkflowView,
    states: TaskStatesView,
    events: Seq<(EventView, u128)>,
    id: Text,
    workdir: LocationView,
)
    requires
        workflow.wf(),
        states.wf(),
        action_of(after(initial(workflow, states), events)) == (ActionView::RunSetup {
            id,
            workdir,
        }),
    ensures
        exists|i: int|
            0 <= i < workflow.tasks.len() && (#[trigger] workflow.tasks[i]).id == id
                && workflow.tasks[i].setup && workdir.path == workflow.tasks[i].workdir.text
                && workdir.root == (if workflow.tasks[i].workdir.absolute {
                None
            } else {
                workflow.root_dir
            }),
{
    let run = after(initial(workflow, states), events);
    law_reachable(workflow, states, events);
    lemma_as_declared(workflow, states, events);
    let launch = run.phase->Setup_launch;
    let i = choose|i: int| 0 <= i < workflow.tasks.len() && workflow.tasks[i] == launch.task;
    assert(workflow.tasks[i].id == id);
}

/// Results are collected only of a task that declares so, in the directory and by the
/// policy that it declares.
pub proof fn law_collect_as_declared(
    workflow: WorkflowView,
    states: TaskStatesView,
    events: Seq<(EventView, u128)>,
    id: Text,
    workdir: LocationView,
    policy: CollectFailurePolicy,
)
    requires
        workflow.wf(),
        states.wf(),
        action_of(after(initial(workflow, states), events)) == (ActionView::RunCollect {
            id,
            workdir,
            policy,
        }),
    ensures
        exists|i: int|
            0 <= i < workflow.tasks.len() && (#[trigger] workflow.tasks[i]).id == id
                && workflow.tasks[i].collect && policy
                == workflow.tasks[i].collect_failure_policy && workdir.path
                == workflow.tasks[i].workdir.text && workdir.root == (
            if workflow.tasks[i].workdir.absolute {
                None
            } else {
                workflow.root_dir
            }),
{
    let run = after(initial(workflow, states), events);
    lemma_as_declared(workflow, states, events);
    let task = run.phase->Collect_task;
    let i = choose|i: int|
        0 <= i < workflow.tasks.len() && declares(workflow, #[trigger] workflow.tasks[i], task);
    assert(workflow.tasks[i].id == id);
}

/// The hooks of a trigger.
pub open spec fn has_trigger(trigger: HookTrigger) -> spec_fn(MonitoringHookView) -> bool {
    |hook: MonitoringHookView| hook.trigger == trigger
}

/// Hooks are run of a task of the workflow, and are told its id and the directory that it
/// declares. On its start, its completion and its failure these are, in their order, all
/// the hooks that it declares for that, and no others; but for these, a single hook is
/// run, a periodic one that the task declares, which is told that the task is running.
pub proof fn law_hooks_as_declared(
    workflow: WorkflowView,
    states: TaskStatesView,
    events: Seq<(EventView, u128)>,
    batch: HookBatchView,
)
    requires
        workflow.wf(),
        states.wf(),
        action_of(after(initial(workflow, states), events)) == (ActionView::FireHooks { batch }),
    ensures
        exists|i: int|
            0 <= i < workflow.tasks.len() && (#[trigger] workflow.tasks[i]).id
                == batch.context.task_id && batch.context.workdir.path
                == workflow.tasks[i].workdir.text && batch.context.workdir.root == (
            if workflow.tasks[i].workdir.absolute {
                None
            } else {
                workflow.root_dir
            }) && {
                let monitors = workflow.tasks[i].monitors;
                match batch.context.phase {
                    TaskPhase::Completed => batch.hooks == monitors.filter(
                        has_trigger(HookTrigger::OnComplete),
                    ),
                    TaskPhase::Failed => batch.hooks == monitors.filter(
                        has_trigger(HookTrigger::OnFailure),
                    ),
                    TaskPhase::Running => batch.context.exit_code is None && (batch.hooks
                        == monitors.filter(has_trigger(HookTrigger::OnStart)) || (
                    batch.hooks.len() == 1 && batch.hooks[0].trigger is Periodic
                        && monitors.contains(batch.hooks[0]))),
                }
            },
{
    let run = after(initial(workflow, states), events);
    law_reachable(workflow, states, events);
    lemma_as_declared(workflow, states, events);
    match run.phase {
        PhaseView::Settle { batch: _ } => {
            let i = choose|i: int|
                0 <= i < workflow.tasks.len() && (#[trigger] workflow.tasks[i]).id
                    == batch.context.task_id && batch.context.workdir == resolved(
                    workflow.tasks[i].workdir,
                    workflow.root_dir,
                ) && batch.hooks == hooks_due(workflow.tasks[i].monitors, batch.context.phase);
            lemma_hooks_due(workflow.tasks[i].monitors);
            assert(workflow.tasks[i].id == batch.context.task_id);
        },
        PhaseView::Announce { launch, batch: _ } => {
            let i = choose|i: int|
                0 <= i < workflow.tasks.len() && workflow.tasks[i] == launch.task;
            lemma_hooks_due(workflow.tasks[i].monitors);
            assert(workflow.tasks[i].id == batch.context.task_id);
        },
        _ => {
            let flight = run.data.handles[run.data.cursor];
            assert(is_declared(workflow, flight));
            let i = choose|i: int|
                0 <= i < workflow.tasks.len() && declares(
                    workflow,
                    #[trigger] workflow.tasks[i],
                    flight,
                );
            assert(workflow.tasks[i].id == batch.context.task_id);
        },
    }
}

/// The hooks that are due on a phase are those of its trigger.
pub proof fn lemma_hooks_due(monitors: Seq<MonitoringHookView>)
    ensures
        hooks_due(monitors, TaskPhase::Running) == monitors.filter(
            has_trigger(HookTrigger::OnStart),
        ),
        hooks_due(monitors, TaskPhase::Completed) == monitors.filter(
            has_trigger(HookTrigger::OnComplete),
        ),
        hooks_due(monitors, TaskPhase::Failed) == monitors.filter(
            has_trigger(HookTrigger::OnFailure),
        ),
{
    let on_running = |hook: MonitoringHookView| fires(hook.trigger, TaskPhase::Running);
    let on_completed = |hook: MonitoringHookView| fires(hook.trigger, TaskPhase::Completed);
    let on_failed = |hook: MonitoringHookView| fires(hook.trigger, TaskPhase::Failed);
    lemma_filter_same(monitors, on_running, has_trigger(HookTrigger::OnStart));
    lemma_filter_same(monitors, on_completed, has_trigger(HookTrigger::OnComplete));
    lemma_filter_same(monitors, on_failed, has_trigger(HookTrigger::OnFailure));
}

} // verus!
