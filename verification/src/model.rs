//! How a run goes, as a function from its state and an event to its next state.
//!
//! The run takes its tasks round by round. A round looks for an interrupt, polls
//! what is in flight, settles what has ended, leaves out what cannot be run any
//! more, runs periodic hooks, starts what is ready, and ends the run or lets time
//! pass.

use crate::dag::DagView;
use crate::error::WorkflowErrorView;
use crate::monitoring::{
    elapsed, hooks_due, periodic_due, HookBatchView, HookContextView, MonitoringHookView, TaskPhase,
};
use crate::path::{resolved, LocationView};
use crate::protocol::{ActionView, EventView};
use crate::remains::standing;
use crate::skips::{left_out, with_skips};
use crate::state::{TaskStatesView, TaskStatusView};
use crate::summary::{all_done, summary, WorkflowSummaryView};
use crate::task::{task_ids, CollectFailurePolicy, ExecutionModeView, TaskView};
use crate::text::{first_index, signed_decimal, Text};
use crate::workflow::{build_outcome, WorkflowView};
use vstd::prelude::*;

verus! {

/// How long the run lets time pass between two rounds.
pub const ROUND_PAUSE_MILLIS: u64 = 50;

/// The content of a task that is in flight.
#[verifier::ext_equal]
pub struct InFlightView {
    pub id: Text,
    pub started_at: u128,
    pub monitors: Seq<MonitoringHookView>,
    pub collect: bool,
    pub workdir: LocationView,
    pub collect_failure_policy: CollectFailurePolicy,
    pub timeout_nanos: Option<u128>,
    /// When each periodic hook last ran, by the name of the hook.
    pub last_periodic_fire: Map<Text, u128>,
}

/// A task that is being started, with the directory in which it works.
pub struct LaunchView {
    pub task: TaskView,
    pub workdir: LocationView,
}

/// Where a run stands.
pub enum PhaseView {
    /// The directory for log files is being created.
    LogDir,
    /// The dependency graph is to be built.
    Build,
    /// The first round is to begin.
    Begin,
    /// A round begins with a look for an interrupt.
    Interrupt,
    /// The run has been interrupted, and what is in flight is being terminated.
    TerminateAll,
    /// The task at the cursor is to be polled.
    Poll,
    /// The process of a task is being terminated because its time is up.
    Expire { id: Text },
    /// The process of a task is being asked whether it is running.
    AskRunning { id: Text },
    /// The finished task at the cursor is to be settled.
    Process,
    /// The process of a task is being waited for.
    Wait { task: InFlightView },
    /// The results of a task are being collected.
    Collect { task: InFlightView },
    /// The hooks of a task that has ended are being run.
    Settle { batch: HookBatchView },
    /// Tasks whose dependencies have failed are to be left out.
    Skips,
    /// The hook at the cursors is to be looked at.
    Periodic,
    /// A periodic hook is being run.
    FirePeriodic { name: Text, batch: HookBatchView },
    /// The tasks that are ready are to be listed.
    Ready,
    /// The ready task at the cursor is to be started.
    Dispatch,
    /// The step before the start of a task is being taken.
    Setup { launch: LaunchView },
    /// A task is being started.
    Launch { launch: LaunchView },
    /// The hooks of a task that has been started are being run.
    Announce { launch: LaunchView, batch: HookBatchView },
    /// The round ends with a look at whether there is anything left.
    Check,
    /// Time passes before the next round.
    Sleep,
    /// The run is over.
    Ended { outcome: Result<WorkflowSummaryView, WorkflowErrorView> },
}

/// What a run keeps from phase to phase.
#[verifier::ext_equal]
pub struct RunDataView {
    pub workflow: WorkflowView,
    pub states: TaskStatesView,
    pub dag: DagView,
    pub handles: Seq<InFlightView>,
    pub started_at: u128,
    /// The tasks that have finished, or those that are ready.
    pub queue: Seq<Text>,
    pub cursor: int,
    pub hook_cursor: int,
    /// Whether a task has been started in this round.
    pub dispatched: bool,
}

/// The content of a run.
#[verifier::ext_equal]
pub struct RunView {
    pub data: RunDataView,
    pub phase: PhaseView,
    /// Whether the statuses are to be stored before the phase is gone on with.
    pub saving: bool,
}

/// The ids of the tasks in flight.
pub open spec fn handle_ids(handles: Seq<InFlightView>) -> Seq<Text> {
    handles.map_values(|task: InFlightView| task.id)
}

/// The run enters a phase.
pub open spec fn go(data: RunDataView, phase: PhaseView) -> RunView {
    RunView { data, phase, saving: false }
}

/// The run has the statuses stored and enters a phase.
pub open spec fn save_and_go(data: RunDataView, phase: PhaseView) -> RunView {
    RunView { data, phase, saving: true }
}

/// The run enters a phase after a task has been given a status.
pub open spec fn with_status(data: RunDataView, id: Text, status: TaskStatusView) -> RunDataView {
    RunDataView { states: data.states.set(id, status), ..data }
}

/// The state in which a run begins.
pub open spec fn initial(workflow: WorkflowView, states: TaskStatesView) -> RunView {
    go(
        RunDataView {
            workflow,
            states,
            dag: DagView::empty(),
            handles: Seq::empty(),
            started_at: 0,
            queue: Seq::empty(),
            cursor: 0,
            hook_cursor: 0,
            dispatched: false,
        },
        if workflow.log_dir is Some {
            PhaseView::LogDir
        } else {
            PhaseView::Build
        },
    )
}

/// The hooks that are due when a task enters a phase, with what they are told.
pub open spec fn hook_batch(
    monitors: Seq<MonitoringHookView>,
    workdir: LocationView,
    phase: TaskPhase,
    exit_code: Option<i32>,
    task_id: Text,
) -> HookBatchView {
    HookBatchView {
        hooks: hooks_due(monitors, phase),
        context: HookContextView { task_id, workdir, phase, exit_code },
    }
}

/// Whether the time of a task is up.
pub open spec fn expired(task: InFlightView, now: u128) -> bool {
    match task.timeout_nanos {
        Some(timeout) => elapsed(task.started_at, now) >= timeout,
        None => false,
    }
}

/// When a periodic hook of a task last ran: if it never did, when the task started.
pub open spec fn last_fire(task: InFlightView, name: Text) -> u128 {
    if task.last_periodic_fire.contains_key(name) {
        task.last_periodic_fire[name]
    } else {
        task.started_at
    }
}

/// How a process that left an exit code other than zero, or none, is said to have failed.
pub open spec fn exit_text(code: Option<i32>) -> Text {
    "exit code "@ + signed_decimal(
        match code {
            Some(code) => code as int,
            None => -1,
        },
    )
}

/// How a task of the mode `Queued` fails where there is no queue.
pub open spec fn no_queue_text(id: Text) -> Text {
    "task '"@ + id + "': Queued mode requires a QueuedSubmitter"@
}

/// A task that has been started, as it is in flight.
pub open spec fn in_flight(launch: LaunchView, now: u128) -> InFlightView {
    InFlightView {
        id: launch.task.id,
        started_at: now,
        monitors: launch.task.monitors,
        collect: launch.task.collect,
        workdir: launch.workdir,
        collect_failure_policy: launch.task.collect_failure_policy,
        timeout_nanos: launch.task.mode.timeout(),
        last_periodic_fire: Map::empty(),
    }
}

/// A task has ended well.
pub open spec fn complete(data: RunDataView, task: InFlightView) -> RunView {
    go(
        with_status(data, task.id, TaskStatusView::Completed),
        PhaseView::Settle {
            batch: hook_batch(task.monitors, task.workdir, TaskPhase::Completed, Some(0), task.id),
        },
    )
}

/// A task has ended badly.
pub open spec fn fail(
    data: RunDataView,
    task: InFlightView,
    error: Text,
    exit_code: Option<i32>,
) -> RunView {
    go(
        with_status(data, task.id, TaskStatusView::Failed { error }),
        PhaseView::Settle {
            batch: hook_batch(task.monitors, task.workdir, TaskPhase::Failed, exit_code, task.id),
        },
    )
}

/// A task could not be started.
pub open spec fn refuse(data: RunDataView, id: Text, error: Text) -> RunView {
    save_and_go(with_status(data, id, TaskStatusView::Failed { error }), PhaseView::Dispatch)
}

/// After the dependency graph has been asked for.
pub open spec fn after_build(data: RunDataView) -> RunView {
    match build_outcome(data.workflow.tasks) {
        Ok(dag) => save_and_go(
            RunDataView {
                workflow: WorkflowView { successors: Some(dag.successor_map()), ..data.workflow },
                states: data.states.with_pending(dag.nodes),
                dag,
                ..data
            },
            PhaseView::Begin,
        ),
        Err(error) => go(data, PhaseView::Ended { outcome: Err(error) }),
    }
}

/// After the look for an interrupt. What was in flight waits again after an interrupt.
pub open spec fn after_interrupt_check(data: RunDataView, interrupted: bool) -> RunView {
    if interrupted {
        go(
            RunDataView {
                states: data.states.set_all(handle_ids(data.handles), TaskStatusView::Pending),
                ..data
            },
            PhaseView::TerminateAll,
        )
    } else {
        go(RunDataView { queue: Seq::empty(), cursor: 0, ..data }, PhaseView::Poll)
    }
}

/// Polling goes on to the next task in flight.
pub open spec fn poll(data: RunDataView, now: u128) -> RunView {
    if data.cursor >= data.handles.len() {
        go(RunDataView { cursor: 0, ..data }, PhaseView::Process)
    } else {
        let task = data.handles[data.cursor];
        go(
            RunDataView { cursor: data.cursor + 1, ..data },
            if expired(task, now) {
                PhaseView::Expire { id: task.id }
            } else {
                PhaseView::AskRunning { id: task.id }
            },
        )
    }
}

/// After a task whose time is up has been terminated.
pub open spec fn expire(data: RunDataView, id: Text) -> RunView {
    save_and_go(
        RunDataView {
            states: data.states.set(
                id,
                TaskStatusView::Failed { error: WorkflowErrorView::TaskTimeout(id).message() },
            ),
            queue: data.queue.push(id),
            ..data
        },
        PhaseView::Poll,
    )
}

/// After a task has been asked whether it is running.
pub open spec fn after_asking(data: RunDataView, id: Text, running: bool) -> RunView {
    go(
        RunDataView {
            queue: if running {
                data.queue
            } else {
                data.queue.push(id)
            },
            ..data
        },
        PhaseView::Poll,
    )
}

/// Settling goes on to the next finished task. One that has failed already, because
/// its time was up, is not waited for.
pub open spec fn process(data: RunDataView) -> RunView {
    if data.cursor >= data.queue.len() {
        go(data, PhaseView::Skips)
    } else {
        let id = data.queue[data.cursor];
        let next = RunDataView { cursor: data.cursor + 1, ..data };
        match first_index(handle_ids(data.handles), id) {
            None => go(next, PhaseView::Process),
            Some(i) => go(
                RunDataView { handles: data.handles.remove(i), ..next },
                if data.states.get(id) matches Some(status) && status is Failed {
                    PhaseView::Process
                } else {
                    PhaseView::Wait { task: data.handles[i] }
                },
            ),
        }
    }
}

/// After the process of a task has been waited for: it ended well if it left the
/// exit code zero.
pub open spec fn after_exit(data: RunDataView, task: InFlightView, code: Option<i32>) -> RunView {
    if code == Some(0i32) {
        if task.collect {
            go(data, PhaseView::Collect { task })
        } else {
            complete(data, task)
        }
    } else {
        fail(data, task, exit_text(code), code)
    }
}

/// After the results of a task could not be collected.
pub open spec fn after_collect_failure(data: RunDataView, task: InFlightView, text: Text) -> RunView {
    match task.collect_failure_policy {
        CollectFailurePolicy::FailTask => fail(data, task, text, Some(0)),
        CollectFailurePolicy::WarnOnly => complete(data, task),
    }
}

/// Tasks with failed dependencies are left out; the statuses are stored if there are any.
pub open spec fn skip(data: RunDataView) -> RunView {
    RunView {
        data: RunDataView {
            states: with_skips(data.dag.nodes, data.states, data.workflow.tasks),
            cursor: 0,
            hook_cursor: 0,
            ..data
        },
        phase: PhaseView::Periodic,
        saving: exists|id: Text| left_out(data.dag.nodes, data.states, data.workflow.tasks, id),
    }
}

/// The look at periodic hooks goes on to the next hook, or to the next task.
pub open spec fn periodic(data: RunDataView, now: u128) -> RunView {
    if data.cursor >= data.handles.len() {
        go(data, PhaseView::Ready)
    } else {
        let task = data.handles[data.cursor];
        if data.hook_cursor >= task.monitors.len() {
            go(
                RunDataView { cursor: data.cursor + 1, hook_cursor: 0, ..data },
                PhaseView::Periodic,
            )
        } else {
            let hook = task.monitors[data.hook_cursor];
            go(
                RunDataView { hook_cursor: data.hook_cursor + 1, ..data },
                if periodic_due(hook.trigger, last_fire(task, hook.name), now) {
                    PhaseView::FirePeriodic {
                        name: hook.name,
                        batch: HookBatchView {
                            hooks: seq![hook],
                            context: HookContextView {
                                task_id: task.id,
                                workdir: task.workdir,
                                phase: TaskPhase::Running,
                                exit_code: None,
                            },
                        },
                    }
                } else {
                    PhaseView::Periodic
                },
            )
        }
    }
}

/// After a periodic hook of the task at the cursor has been run.
pub open spec fn after_periodic(data: RunDataView, name: Text, now: u128) -> RunView {
    go(
        RunDataView {
            handles: if data.cursor < data.handles.len() {
                let task = data.handles[data.cursor];
                data.handles.update(
                    data.cursor,
                    InFlightView {
                        last_periodic_fire: task.last_periodic_fire.insert(name, now),
                        ..task
                    },
                )
            } else {
                data.handles
            },
            ..data
        },
        PhaseView::Periodic,
    )
}

/// The tasks that are ready are listed.
pub open spec fn list_ready(data: RunDataView) -> RunView {
    go(
        RunDataView {
            queue: data.dag.ready_tasks(data.states),
            cursor: 0,
            dispatched: false,
            ..data
        },
        PhaseView::Dispatch,
    )
}

/// Starting goes on to the next ready task, until there is none, or as many are in
/// flight as may be. A pending task is taken out of the workflow and started; the
/// statuses are stored at the end if any task was started.
pub open spec fn dispatch(data: RunDataView) -> RunView {
    if data.cursor >= data.queue.len() || data.handles.len() >= data.workflow.max_parallel {
        RunView { data, phase: PhaseView::Check, saving: data.dispatched }
    } else {
        let id = data.queue[data.cursor];
        let next = RunDataView { cursor: data.cursor + 1, ..data };
        if data.states.is_pending(id) {
            match first_index(task_ids(data.workflow.tasks), id) {
                None => go(next, PhaseView::Dispatch),
                Some(i) => {
                    let task = data.workflow.tasks[i];
                    let launch = LaunchView {
                        task,
                        workdir: resolved(task.workdir, data.workflow.root_dir),
                    };
                    go(
                        RunDataView {
                            workflow: WorkflowView {
                                tasks: data.workflow.tasks.remove(i),
                                ..data.workflow
                            },
                            states: data.states.set(id, TaskStatusView::Running),
                            ..next
                        },
                        if task.setup {
                            PhaseView::Setup { launch }
                        } else {
                            PhaseView::Launch { launch }
                        },
                    )
                },
            }
        } else {
            go(next, PhaseView::Dispatch)
        }
    }
}

/// Whether a task is to be handed to a queue that is not there.
pub open spec fn lacks_queue(data: RunDataView, launch: LaunchView) -> bool {
    launch.task.mode is Queued && data.workflow.queued_submitter is None
}

/// After a task has been started.
pub open spec fn after_launch(data: RunDataView, launch: LaunchView) -> RunView {
    if lacks_queue(data, launch) {
        refuse(data, launch.task.id, no_queue_text(launch.task.id))
    } else {
        go(
            data,
            PhaseView::Announce {
                launch,
                batch: hook_batch(
                    launch.task.monitors,
                    launch.workdir,
                    TaskPhase::Running,
                    None,
                    launch.task.id,
                ),
            },
        )
    }
}

/// After the hooks of a task that has been started have been run: it is in flight.
pub open spec fn take_off(data: RunDataView, launch: LaunchView, now: u128) -> RunView {
    go(
        RunDataView {
            handles: data.handles.push(in_flight(launch, now)),
            dispatched: true,
            ..data
        },
        PhaseView::Dispatch,
    )
}

/// The end of a round: the run is over when no task will be worked on again and
/// nothing is in flight. Of the tasks that were not taken up, those that depend on one
/// that was are then dropped.
pub open spec fn check(data: RunDataView, now: u128) -> RunView {
    if all_done(data.dag, data.states) && data.handles.len() == 0 {
        go(
            RunDataView {
                workflow: WorkflowView { tasks: standing(data.workflow.tasks), ..data.workflow },
                ..data
            },
            PhaseView::Ended {
                outcome: Ok(summary(data.states, elapsed(data.started_at, now) as u128)),
            },
        )
    } else {
        go(data, PhaseView::Sleep)
    }
}

/// How a run goes on when it is told what has come of its action. An event that does
/// not answer the action changes nothing.
pub open spec fn transition(run: RunView, event: EventView, now: u128) -> RunView {
    let data = run.data;
    if run.saving {
        match event {
            EventView::Done => RunView { saving: false, ..run },
            EventView::Failed { error } => go(data, PhaseView::Ended { outcome: Err(error) }),
            _ => run,
        }
    } else {
        match (run.phase, event) {
            (PhaseView::LogDir, EventView::Done) => go(data, PhaseView::Build),
            (PhaseView::LogDir, EventView::Failed { error }) => go(
                data,
                PhaseView::Ended { outcome: Err(error) },
            ),
            (PhaseView::Build, EventView::Done) => after_build(data),
            (PhaseView::Begin, EventView::Done) => go(
                RunDataView { started_at: now, ..data },
                PhaseView::Interrupt,
            ),
            (PhaseView::Interrupt, EventView::Interrupted { yes }) => after_interrupt_check(
                data,
                yes,
            ),
            (PhaseView::TerminateAll, EventView::Done) => save_and_go(
                data,
                PhaseView::Ended { outcome: Err(WorkflowErrorView::Interrupted) },
            ),
            (PhaseView::Poll, EventView::Done) => poll(data, now),
            (PhaseView::Expire { id }, EventView::Done) => expire(data, id),
            (PhaseView::AskRunning { id }, EventView::Running { yes }) => after_asking(
                data,
                id,
                yes,
            ),
            (PhaseView::Process, EventView::Done) => process(data),
            (PhaseView::Wait { task }, EventView::Exited { code }) => after_exit(data, task, code),
            (PhaseView::Wait { task }, EventView::Failed { error }) => fail(
                data,
                task,
                "process terminated"@,
                None,
            ),
            (PhaseView::Collect { task }, EventView::Done) => complete(data, task),
            (PhaseView::Collect { task }, EventView::StepFailed { text }) => after_collect_failure(
                data,
                task,
                text,
            ),
            (PhaseView::Settle { batch }, EventView::Done) => save_and_go(data, PhaseView::Process),
            (PhaseView::Skips, EventView::Done) => skip(data),
            (PhaseView::Periodic, EventView::Done) => periodic(data, now),
            (PhaseView::FirePeriodic { name, batch }, EventView::Done) => after_periodic(
                data,
                name,
                now,
            ),
            (PhaseView::Ready, EventView::Done) => list_ready(data),
            (PhaseView::Dispatch, EventView::Done) => dispatch(data),
            (PhaseView::Setup { launch }, EventView::Done) => go(
                data,
                PhaseView::Launch { launch },
            ),
            (PhaseView::Setup { launch }, EventView::StepFailed { text }) => refuse(
                data,
                launch.task.id,
                text,
            ),
            (PhaseView::Launch { launch }, EventView::Done) => after_launch(data, launch),
            (PhaseView::Launch { launch }, EventView::Failed { error }) => if lacks_queue(
                data,
                launch,
            ) {
                run
            } else {
                refuse(data, launch.task.id, error.message())
            },
            (PhaseView::Announce { launch, batch }, EventView::Done) => take_off(data, launch, now),
            (PhaseView::Check, EventView::Done) => check(data, now),
            (PhaseView::Sleep, EventView::Done) => go(data, PhaseView::Interrupt),
            _ => run,
        }
    }
}

/// What is to be done before a run can go on.
pub open spec fn action_of(run: RunView) -> ActionView {
    let data = run.data;
    if run.saving {
        ActionView::Save
    } else {
        match run.phase {
            PhaseView::LogDir => match data.workflow.resolved_log_dir() {
                Some(dir) => ActionView::CreateLogDir { dir },
                None => ActionView::Proceed,
            },
            PhaseView::Interrupt => ActionView::CheckInterrupt,
            PhaseView::TerminateAll => ActionView::TerminateAll { ids: handle_ids(data.handles) },
            PhaseView::Expire { id } => ActionView::Terminate { id },
            PhaseView::AskRunning { id } => ActionView::IsRunning { id },
            PhaseView::Wait { task } => ActionView::Wait { id: task.id },
            PhaseView::Collect { task } => ActionView::RunCollect {
                id: task.id,
                workdir: task.workdir,
                policy: task.collect_failure_policy,
            },
            PhaseView::Settle { batch } => ActionView::FireHooks { batch },
            PhaseView::FirePeriodic { name, batch } => ActionView::FireHooks { batch },
            PhaseView::Setup { launch } => ActionView::RunSetup {
                id: launch.task.id,
                workdir: launch.workdir,
            },
            PhaseView::Launch { launch } => start_action(data, launch),
            PhaseView::Announce { launch, batch } => ActionView::FireHooks { batch },
            PhaseView::Sleep => ActionView::Sleep { millis: ROUND_PAUSE_MILLIS },
            PhaseView::Ended { outcome } => ActionView::Finish,
            _ => ActionView::Proceed,
        }
    }
}

/// How a task is started: as a process, or by the queue, which keeps its log files
/// where the task works unless there is a directory for them.
pub open spec fn start_action(data: RunDataView, launch: LaunchView) -> ActionView {
    match launch.task.mode {
        ExecutionModeView::Direct { command, args, env, timeout_nanos } => ActionView::Spawn {
            id: launch.task.id,
            workdir: launch.workdir,
            command,
            args,
            env,
        },
        ExecutionModeView::Queued => if lacks_queue(data, launch) {
            ActionView::Proceed
        } else {
            ActionView::Submit {
                id: launch.task.id,
                workdir: launch.workdir,
                log_dir: match data.workflow.resolved_log_dir() {
                    Some(dir) => dir,
                    None => launch.workdir,
                },
            }
        },
    }
}

} // verus!
