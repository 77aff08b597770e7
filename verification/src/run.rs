//! The run of a workflow, step by step.

use crate::dag::Dag;
use crate::error::WorkflowError;
use crate::model::{
    action_of, after_asking, after_build, after_collect_failure, after_exit, after_interrupt_check,
    after_launch, after_periodic, check, complete, dispatch, exit_text, expire, expired, fail,
    handle_ids, in_flight, initial, lacks_queue, last_fire, list_ready, no_queue_text, periodic,
    poll, process, refuse, skip, start_action, take_off, transition, InFlightView, LaunchView,
    PhaseView, RunDataView, RunView, ROUND_PAUSE_MILLIS,
};
use crate::monitoring::{
    copy_hooks, elapsed_nanos, fire_hooks, hook_views, is_periodic_due, HookBatch, HookContext,
    MonitoringHook, TaskPhase,
};
use crate::path::Location;
use crate::protocol::{Action, Event};
use crate::skips::propagate_skips;
use crate::state::{TaskStates, TaskStatus};
use crate::summary::{build_summary, is_all_done, WorkflowSummary};
use crate::task::{copy_text_pairs, find_task, task_ids, CollectFailurePolicy, ExecutionMode, Task};
use crate::text::{
    copy_texts, first_index, lemma_first_unique, signed_decimal_text, texts, Text,
};
use crate::workflow::Workflow;
use vstd::hash_map::StringHashMap;
use vstd::prelude::*;
use vstd::string::*;

verus! {

/// A task that is in flight.
struct InFlightTask {
    id: String,
    started_at: u128,
    monitors: Vec<MonitoringHook>,
    collect: bool,
    workdir: Location,
    collect_failure_policy: CollectFailurePolicy,
    timeout_nanos: Option<u128>,
    last_periodic_fire: StringHashMap<u128>,
}

impl View for InFlightTask {
    type V = InFlightView;

    closed spec fn view(&self) -> InFlightView {
        InFlightView {
            id: self.id@,
            started_at: self.started_at,
            monitors: hook_views(self.monitors@),
            collect: self.collect,
            workdir: self.workdir@,
            collect_failure_policy: self.collect_failure_policy,
            timeout_nanos: self.timeout_nanos,
            last_periodic_fire: self.last_periodic_fire@,
        }
    }
}

/// The contents of a sequence of tasks in flight.
spec fn handle_views(handles: Seq<InFlightTask>) -> Seq<InFlightView> {
    handles.map_values(|task: InFlightTask| task@)
}

/// A task that is being started.
struct Launch {
    task: Task,
    workdir: Location,
}

impl View for Launch {
    type V = LaunchView;

    closed spec fn view(&self) -> LaunchView {
        LaunchView { task: self.task@, workdir: self.workdir@ }
    }
}

/// Where a run stands.
enum Phase {
    LogDir,
    Build,
    Begin,
    Interrupt,
    TerminateAll,
    Poll,
    Expire { id: String },
    AskRunning { id: String },
    Process,
    Wait { task: InFlightTask },
    Collect { task: InFlightTask },
    Settle { batch: HookBatch },
    Skips,
    Periodic,
    FirePeriodic { name: String, batch: HookBatch },
    Ready,
    Dispatch,
    Setup { launch: Launch },
    Launch { launch: Launch },
    Announce { launch: Launch, batch: HookBatch },
    Check,
    Sleep,
    Ended { outcome: Result<WorkflowSummary, WorkflowError> },
}

impl View for Phase {
    type V = PhaseView;

    closed spec fn view(&self) -> PhaseView {
        match *self {
            Phase::LogDir => PhaseView::LogDir,
            Phase::Build => PhaseView::Build,
            Phase::Begin => PhaseView::Begin,
            Phase::Interrupt => PhaseView::Interrupt,
            Phase::TerminateAll => PhaseView::TerminateAll,
            Phase::Poll => PhaseView::Poll,
            Phase::Expire { id } => PhaseView::Expire { id: id@ },
            Phase::AskRunning { id } => PhaseView::AskRunning { id: id@ },
            Phase::Process => PhaseView::Process,
            Phase::Wait { task } => PhaseView::Wait { task: task@ },
            Phase::Collect { task } => PhaseView::Collect { task: task@ },
            Phase::Settle { batch } => PhaseView::Settle { batch: batch@ },
            Phase::Skips => PhaseView::Skips,
            Phase::Periodic => PhaseView::Periodic,
            Phase::FirePeriodic { name, batch } => PhaseView::FirePeriodic {
                name: name@,
                batch: batch@,
            },
            Phase::Ready => PhaseView::Ready,
            Phase::Dispatch => PhaseView::Dispatch,
            Phase::Setup { launch } => PhaseView::Setup { launch: launch@ },
            Phase::Launch { launch } => PhaseView::Launch { launch: launch@ },
            Phase::Announce { launch, batch } => PhaseView::Announce {
                launch: launch@,
                batch: batch@,
            },
            Phase::Check => PhaseView::Check,
            Phase::Sleep => PhaseView::Sleep,
            Phase::Ended { outcome } => PhaseView::Ended {
                outcome: match outcome {
                    Ok(summary) => Ok(summary@),
                    Err(error) => Err(error@),
                },
            },
        }
    }
}

/// What a run keeps from phase to phase.
struct RunData {
    workflow: Workflow,
    states: TaskStates,
    dag: Dag,
    handles: Vec<InFlightTask>,
    started_at: u128,
    queue: Vec<String>,
    cursor: usize,
    hook_cursor: usize,
    dispatched: bool,
}

impl View for RunData {
    type V = RunDataView;

    closed spec fn view(&self) -> RunDataView {
        RunDataView {
            workflow: self.workflow@,
            states: self.states@,
            dag: self.dag@,
            handles: handle_views(self.handles@),
            started_at: self.started_at,
            queue: texts(self.queue@),
            cursor: self.cursor as int,
            hook_cursor: self.hook_cursor as int,
            dispatched: self.dispatched,
        }
    }
}

/// A run of a workflow.
pub struct Run {
    data: RunData,
    phase: Phase,
    saving: bool,
}

impl View for Run {
    type V = RunView;

    closed spec fn view(&self) -> RunView {
        RunView { data: self.data@, phase: self.phase@, saving: self.saving }
    }
}

/// Finds the first task of an id among those in flight.
fn find_handle(handles: &Vec<InFlightTask>, id: &String) -> (r: Option<usize>)
    ensures
        match r {
            Some(i) => i < handles.len() && first_index(
                handle_ids(handle_views(handles@)),
                id@,
            ) == Some(i as int),
            None => first_index(handle_ids(handle_views(handles@)), id@) is None,
        },
{
    let ghost ids = handle_ids(handle_views(handles@));
    let mut i: usize = 0;
    while i < handles.len()
        invariant
            i <= handles.len(),
            ids == handle_ids(handle_views(handles@)),
            forall|j: int| 0 <= j < i ==> ids[j] != id@,
        decreases handles.len() - i,
    {
        if handles[i].id == *id {
            proof {
                lemma_first_unique(ids, id@, i as int);
            }
            return Some(i);
        }
        i = i + 1;
    }
    None
}

/// Lists the ids of the tasks in flight.
fn list_handle_ids(handles: &Vec<InFlightTask>) -> (r: Vec<String>)
    ensures
        texts(r@) == handle_ids(handle_views(handles@)),
{
    let ghost ids = handle_ids(handle_views(handles@));
    let mut r: Vec<String> = Vec::new();
    let mut i: usize = 0;
    while i < handles.len()
        invariant
            i <= handles.len(),
            ids == handle_ids(handle_views(handles@)),
            ids.len() == handles.len(),
            texts(r@) == ids.take(i as int),
        decreases handles.len() - i,
    {
        let ghost before = texts(r@);
        r.push(handles[i].id.clone());
        proof {
            assert(texts(r@) =~= before.push(handles@[i as int].id@));
            assert(ids[i as int] == handle_views(handles@)[i as int].id);
            assert(ids.take(i + 1) =~= ids.take(i as int).push(ids[i as int]));
        }
        i = i + 1;
    }
    assert(ids.take(i as int) =~= ids);
    r
}

impl InFlightTask {
    /// Whether the time of the task is up.
    fn is_expired(&self, now: u128) -> (r: bool)
        ensures
            r == expired(self@, now),
    {
        match self.timeout_nanos {
            Some(timeout) => elapsed_nanos(self.started_at, now) >= timeout,
            None => false,
        }
    }

    /// When a periodic hook of the task last ran.
    fn last_fire(&self, name: &String) -> (r: u128)
        ensures
            r == last_fire(self@, name@),
    {
        match self.last_periodic_fire.get(name.as_str()) {
            Some(last) => *last,
            None => self.started_at,
        }
    }
}

impl Run {
    /// Whether the graph of the run is well formed.
    pub closed spec fn wf(self) -> bool {
        self.data.wf()
    }

    /// What is to be done before the run can go on.
    pub fn action(&self) -> (r: Action)
        ensures
            r@ == action_of(self@),
    {
        if self.saving {
            return Action::Save;
        }
        match &self.phase {
            Phase::LogDir => match self.data.workflow.resolved_log_dir() {
                Some(dir) => Action::CreateLogDir { dir },
                None => Action::Proceed,
            },
            Phase::Interrupt => Action::CheckInterrupt,
            Phase::TerminateAll => Action::TerminateAll {
                ids: list_handle_ids(&self.data.handles),
            },
            Phase::Expire { id } => Action::Terminate { id: id.clone() },
            Phase::AskRunning { id } => Action::IsRunning { id: id.clone() },
            Phase::Wait { task } => Action::Wait { id: task.id.clone() },
            Phase::Collect { task } => Action::RunCollect {
                id: task.id.clone(),
                workdir: task.workdir.copy(),
                policy: task.collect_failure_policy,
            },
            Phase::Settle { batch } => Action::FireHooks { batch: batch.copy() },
            Phase::FirePeriodic { name: _, batch } => Action::FireHooks { batch: batch.copy() },
            Phase::Setup { launch } => Action::RunSetup {
                id: launch.task.id.clone(),
                workdir: launch.workdir.copy(),
            },
            Phase::Launch { launch } => self.data.start(launch),
            Phase::Announce { launch: _, batch } => Action::FireHooks { batch: batch.copy() },
            Phase::Sleep => Action::Sleep { millis: ROUND_PAUSE_MILLIS },
            Phase::Ended { outcome: _ } => Action::Finish,
            _ => Action::Proceed,
        }
    }
}

impl RunData {
    /// Whether the graph is well formed.
    closed spec fn wf(self) -> bool {
        self.dag.wf()
    }

    /// Enters a phase.
    fn go(self, phase: Phase) -> (r: Run)
        ensures
            r@ == crate::model::go(self@, phase@),
            r.wf() == self.wf(),
    {
        Run { data: self, phase, saving: false }
    }

    /// Has the statuses stored and enters a phase.
    fn save_and_go(self, phase: Phase) -> (r: Run)
        ensures
            r@ == crate::model::save_and_go(self@, phase@),
            r.wf() == self.wf(),
    {
        Run { data: self, phase, saving: true }
    }

    /// How a task is started.
    fn start(&self, launch: &Launch) -> (r: Action)
        ensures
            r@ == start_action(self@, launch@),
    {
        let id = launch.task.id.clone();
        let workdir = launch.workdir.copy();
        match &launch.task.mode {
            ExecutionMode::Direct { command, args, env, timeout_nanos: _ } => Action::Spawn {
                id,
                workdir,
                command: command.clone(),
                args: copy_texts(args),
                env: copy_text_pairs(env),
            },
            ExecutionMode::Queued => {
                if self.workflow.queued_submitter().is_none() {
                    return Action::Proceed;
                }
                let log_dir = match self.workflow.resolved_log_dir() {
                    Some(dir) => dir,
                    None => launch.workdir.copy(),
                };
                Action::Submit { id, workdir, log_dir }
            },
        }
    }

    /// Gives a task the status `Failed`.
    fn set_failed(self, id: &String, error: String) -> (r: RunData)
        ensures
            r@ == crate::model::with_status(
                self@,
                id@,
                crate::state::TaskStatusView::Failed { error: error@ },
            ),
            r.wf() == self.wf(),
    {
        let mut data = self;
        data.states.mark_failed(id, error);
        data
    }

    /// A task has ended well.
    fn complete(self, task: InFlightTask) -> (r: Run)
        ensures
            r@ == complete(self@, task@),
            r.wf() == self.wf(),
    {
        let mut data = self;
        data.states.mark_completed(&task.id);
        let batch = fire_hooks(
            &task.monitors,
            &task.workdir,
            TaskPhase::Completed,
            Some(0),
            &task.id,
        );
        data.go(Phase::Settle { batch })
    }

    /// A task has ended badly.
    fn fail(self, task: InFlightTask, error: String, exit_code: Option<i32>) -> (r: Run)
        ensures
            r@ == fail(self@, task@, error@, exit_code),
            r.wf() == self.wf(),
    {
        let batch = fire_hooks(
            &task.monitors,
            &task.workdir,
            TaskPhase::Failed,
            exit_code,
            &task.id,
        );
        self.set_failed(&task.id, error).go(Phase::Settle { batch })
    }

    /// A task could not be started.
    fn refuse(self, id: &String, error: String) -> (r: Run)
        ensures
            r@ == refuse(self@, id@, error@),
            r.wf() == self.wf(),
    {
        self.set_failed(id, error).save_and_go(Phase::Dispatch)
    }

    /// Builds the dependency graph and gives every task a status.
    fn build(self) -> (r: Run)
        requires
            self.wf(),
        ensures
            r@ == after_build(self@),
            r.wf(),
    {
        let mut data = self;
        match data.workflow.build_dag() {
            Ok(dag) => {
                data.workflow.set_successors(dag.successor_table());
                data.states.init_pending(dag.task_ids());
                data.dag = dag;
                data.save_and_go(Phase::Begin)
            },
            Err(error) => data.go(Phase::Ended { outcome: Err(error) }),
        }
    }

    /// Goes on after the look for an interrupt.
    fn after_interrupt_check(self, interrupted: bool) -> (r: Run)
        ensures
            r@ == after_interrupt_check(self@, interrupted),
            r.wf() == self.wf(),
    {
        let mut data = self;
        if interrupted {
            let ids = list_handle_ids(&data.handles);
            data.states.reset_pending(&ids);
            data.go(Phase::TerminateAll)
        } else {
            data.queue = Vec::new();
            data.cursor = 0;
            assert(texts(data.queue@) =~= Seq::<Text>::empty());
            data.go(Phase::Poll)
        }
    }

    /// Polls the next task in flight.
    fn poll_finished(self, now: u128) -> (r: Run)
        ensures
            r@ == poll(self@, now),
            r.wf() == self.wf(),
    {
        let mut data = self;
        if data.cursor >= data.handles.len() {
            data.cursor = 0;
            return data.go(Phase::Process);
        }
        let id = data.handles[data.cursor].id.clone();
        let is_expired = data.handles[data.cursor].is_expired(now);
        data.cursor = data.cursor + 1;
        if is_expired {
            data.go(Phase::Expire { id })
        } else {
            data.go(Phase::AskRunning { id })
        }
    }

    /// Notes that a task has finished.
    fn enqueue(self, id: &String) -> (r: RunData)
        ensures
            r@ == (RunDataView { queue: self@.queue.push(id@), ..self@ }),
            r.wf() == self.wf(),
    {
        let mut data = self;
        data.queue.push(id.clone());
        assert(texts(data.queue@) =~= texts(self.queue@).push(id@));
        data
    }

    /// Goes on after a task whose time is up has been terminated.
    fn expire(self, id: String) -> (r: Run)
        ensures
            r@ == expire(self@, id@),
            r.wf() == self.wf(),
    {
        let error = WorkflowError::TaskTimeout(id.clone()).message();
        self.set_failed(&id, error).enqueue(&id).save_and_go(Phase::Poll)
    }

    /// Goes on after a task has been asked whether it is running.
    fn after_asking(self, id: String, running: bool) -> (r: Run)
        ensures
            r@ == after_asking(self@, id@, running),
            r.wf() == self.wf(),
    {
        if running {
            self.go(Phase::Poll)
        } else {
            self.enqueue(&id).go(Phase::Poll)
        }
    }

    /// Settles the next finished task.
    fn process_finished(self) -> (r: Run)
        ensures
            r@ == process(self@),
            r.wf() == self.wf(),
    {
        let mut data = self;
        if data.cursor >= data.queue.len() {
            return data.go(Phase::Skips);
        }
        let id = data.queue[data.cursor].clone();
        data.cursor = data.cursor + 1;
        match find_handle(&data.handles, &id) {
            None => data.go(Phase::Process),
            Some(i) => {
                let task = data.handles.remove(i);
                assert(handle_views(data.handles@) =~= handle_views(self.handles@).remove(
                    i as int,
                ));
                let failed = matches!(
                    data.states.get_status(id.as_str()),
                    Some(TaskStatus::Failed { .. })
                );
                if failed {
                    data.go(Phase::Process)
                } else {
                    data.go(Phase::Wait { task })
                }
            },
        }
    }

    /// Goes on after the process of a task has been waited for.
    fn after_exit(self, task: InFlightTask, code: Option<i32>) -> (r: Run)
        ensures
            r@ == after_exit(self@, task@, code),
            r.wf() == self.wf(),
    {
        match code {
            Some(0) => if task.collect {
                self.go(Phase::Collect { task })
            } else {
                self.complete(task)
            },
            _ => {
                let shown = match code {
                    Some(code) => code,
                    None => -1,
                };
                let error = String::from_str("exit code ").concat(
                    signed_decimal_text(shown).as_str(),
                );
                assert(error@ == exit_text(code));
                self.fail(task, error, code)
            },
        }
    }

    /// Goes on after the results of a task could not be collected.
    fn after_collect_failure(self, task: InFlightTask, text: String) -> (r: Run)
        ensures
            r@ == after_collect_failure(self@, task@, text@),
            r.wf() == self.wf(),
    {
        match task.collect_failure_policy {
            CollectFailurePolicy::FailTask => self.fail(task, text, Some(0)),
            CollectFailurePolicy::WarnOnly => self.complete(task),
        }
    }

    /// Leaves out tasks with failed dependencies.
    fn skip(self) -> (r: Run)
        ensures
            r@ == skip(self@),
            r.wf() == self.wf(),
    {
        let mut data = self;
        let any_skipped = propagate_skips(&data.dag, &mut data.states, data.workflow.tasks());
        data.cursor = 0;
        data.hook_cursor = 0;
        if any_skipped {
            data.save_and_go(Phase::Periodic)
        } else {
            data.go(Phase::Periodic)
        }
    }

    /// Looks at the next hook for one that is due again.
    fn periodic(self, now: u128) -> (r: Run)
        ensures
            r@ == periodic(self@, now),
            r.wf() == self.wf(),
    {
        let mut data = self;
        if data.cursor >= data.handles.len() {
            return data.go(Phase::Ready);
        }
        let ghost task = data.handles@[data.cursor as int]@;
        if data.hook_cursor >= data.handles[data.cursor].monitors.len() {
            data.cursor = data.cursor + 1;
            data.hook_cursor = 0;
            return data.go(Phase::Periodic);
        }
        let hook = data.handles[data.cursor].monitors[data.hook_cursor].copy();
        let last = data.handles[data.cursor].last_fire(&hook.name);
        let context = HookContext {
            task_id: data.handles[data.cursor].id.clone(),
            workdir: data.handles[data.cursor].workdir.copy(),
            phase: TaskPhase::Running,
            exit_code: None,
        };
        data.hook_cursor = data.hook_cursor + 1;
        if is_periodic_due(hook.trigger, last, now) {
            let name = hook.name.clone();
            let ghost view = hook@;
            let mut hooks: Vec<MonitoringHook> = Vec::new();
            hooks.push(hook);
            assert(hook_views(hooks@) =~= seq![view]);
            data.go(Phase::FirePeriodic { name, batch: HookBatch { hooks, context } })
        } else {
            data.go(Phase::Periodic)
        }
    }

    /// Goes on after a periodic hook has been run.
    fn after_periodic(self, name: String, now: u128) -> (r: Run)
        ensures
            r@ == after_periodic(self@, name@, now),
            r.wf() == self.wf(),
    {
        let mut data = self;
        if data.cursor < data.handles.len() {
            let ghost before = handle_views(data.handles@);
            data.handles[data.cursor].last_periodic_fire.insert(name, now);
            assert(handle_views(data.handles@) =~= before.update(
                data.cursor as int,
                InFlightView {
                    last_periodic_fire: before[data.cursor as int].last_periodic_fire.insert(
                        name@,
                        now,
                    ),
                    ..before[data.cursor as int]
                },
            ));
        }
        data.go(Phase::Periodic)
    }

    /// Lists the tasks that are ready.
    fn list_ready(self) -> (r: Run)
        requires
            self.wf(),
        ensures
            r@ == list_ready(self@),
            r.wf(),
    {
        let mut data = self;
        data.queue = data.dag.ready_tasks(&data.states);
        data.cursor = 0;
        data.dispatched = false;
        data.go(Phase::Dispatch)
    }

    /// Starts the next ready task.
    fn dispatch(self) -> (r: Run)
        ensures
            r@ == dispatch(self@),
            r.wf() == self.wf(),
    {
        let mut data = self;
        if data.cursor >= data.queue.len() || data.handles.len() >= data.workflow.max_parallel() {
            if data.dispatched {
                return data.save_and_go(Phase::Check);
            }
            return data.go(Phase::Check);
        }
        let id = data.queue[data.cursor].clone();
        data.cursor = data.cursor + 1;
        let pending = matches!(data.states.get_status(id.as_str()), Some(TaskStatus::Pending));
        if !pending {
            return data.go(Phase::Dispatch);
        }
        match find_task(data.workflow.tasks(), &id) {
            None => data.go(Phase::Dispatch),
            Some(i) => {
                let task = data.workflow.take_task(i);
                data.states.mark_running(&id);
                let workdir = data.workflow.resolve(&task.workdir);
                let setup = task.setup;
                let launch = Launch { task, workdir };
                if setup {
                    data.go(Phase::Setup { launch })
                } else {
                    data.go(Phase::Launch { launch })
                }
            },
        }
    }

    /// Whether a task is to be handed to a queue that is not there.
    fn is_lacking_queue(&self, launch: &Launch) -> (r: bool)
        ensures
            r == lacks_queue(self@, launch@),
    {
        let queued = matches!(launch.task.mode, ExecutionMode::Queued);
        queued && self.workflow.queued_submitter().is_none()
    }

    /// Goes on after a task has been started.
    fn after_launch(self, launch: Launch) -> (r: Run)
        ensures
            r@ == after_launch(self@, launch@),
            r.wf() == self.wf(),
    {
        if self.is_lacking_queue(&launch) {
            let error = String::from_str("task '").concat(launch.task.id.as_str()).concat(
                "': Queued mode requires a QueuedSubmitter",
            );
            assert(error@ == no_queue_text(launch@.task.id));
            return self.refuse(&launch.task.id, error);
        }
        let batch = fire_hooks(
            &launch.task.monitors,
            &launch.workdir,
            TaskPhase::Running,
            None,
            &launch.task.id,
        );
        self.go(Phase::Announce { launch, batch })
    }

    /// Counts a task that has been started among those in flight.
    fn take_off(self, launch: Launch, now: u128) -> (r: Run)
        ensures
            r@ == take_off(self@, launch@, now),
            r.wf() == self.wf(),
    {
        let mut data = self;
        let ghost before = handle_views(data.handles@);
        let timeout_nanos = match &launch.task.mode {
            ExecutionMode::Direct { command: _, args: _, env: _, timeout_nanos } => *timeout_nanos,
            ExecutionMode::Queued => None,
        };
        let task = InFlightTask {
            id: launch.task.id.clone(),
            started_at: now,
            monitors: copy_hooks(&launch.task.monitors),
            collect: launch.task.collect,
            workdir: launch.workdir.copy(),
            collect_failure_policy: launch.task.collect_failure_policy,
            timeout_nanos,
            last_periodic_fire: StringHashMap::new(),
        };
        assert(task@ =~= in_flight(launch@, now));
        data.handles.push(task);
        assert(handle_views(data.handles@) =~= before.push(in_flight(launch@, now)));
        data.dispatched = true;
        data.go(Phase::Dispatch)
    }

    /// Ends the run if there is nothing left.
    fn check(self, now: u128) -> (r: Run)
        ensures
            r@ == check(self@, now),
            r.wf() == self.wf(),
    {
        if is_all_done(&self.dag, &self.states) && self.handles.len() == 0 {
            let mut data = self;
            let summary = build_summary(&data.states, elapsed_nanos(data.started_at, now));
            data.workflow.drop_orphans();
            data.go(Phase::Ended { outcome: Ok(summary) })
        } else {
            self.go(Phase::Sleep)
        }
    }
}

impl Run {
    /// Goes on with what has come of the action. `now` is the time in nanoseconds from
    /// any fixed moment. An event that does not answer the action changes nothing.
    #[verifier::rlimit(50)]
    pub fn handle(self, event: Event, now: u128) -> (r: Run)
        requires
            self.wf(),
        ensures
            r@ == transition(self@, event@, now),
            r.wf(),
    {
        let Run { data, phase, saving } = self;
        if saving {
            return match event {
                Event::Done => Run { data, phase, saving: false },
                Event::Failed { error } => data.go(Phase::Ended { outcome: Err(error) }),
                _ => Run { data, phase, saving },
            };
        }
        match (phase, event) {
            (Phase::LogDir, Event::Done) => data.go(Phase::Build),
            (Phase::LogDir, Event::Failed { error }) => data.go(
                Phase::Ended { outcome: Err(error) },
            ),
            (Phase::Build, Event::Done) => data.build(),
            (Phase::Begin, Event::Done) => {
                let mut data = data;
                data.started_at = now;
                data.go(Phase::Interrupt)
            },
            (Phase::Interrupt, Event::Interrupted { yes }) => data.after_interrupt_check(yes),
            (Phase::TerminateAll, Event::Done) => data.save_and_go(
                Phase::Ended { outcome: Err(WorkflowError::Interrupted) },
            ),
            (Phase::Poll, Event::Done) => data.poll_finished(now),
            (Phase::Expire { id }, Event::Done) => data.expire(id),
            (Phase::AskRunning { id }, Event::Running { yes }) => data.after_asking(id, yes),
            (Phase::Process, Event::Done) => data.process_finished(),
            (Phase::Wait { task }, Event::Exited { code }) => data.after_exit(task, code),
            (Phase::Wait { task }, Event::Failed { .. }) => data.fail(
                task,
                String::from_str("process terminated"),
                None,
            ),
            (Phase::Collect { task }, Event::Done) => data.complete(task),
            (Phase::Collect { task }, Event::StepFailed { text }) => data.after_collect_failure(
                task,
                text,
            ),
            (Phase::Settle { .. }, Event::Done) => data.save_and_go(Phase::Process),
            (Phase::Skips, Event::Done) => data.skip(),
            (Phase::Periodic, Event::Done) => data.periodic(now),
            (Phase::FirePeriodic { name, .. }, Event::Done) => data.after_periodic(name, now),
            (Phase::Ready, Event::Done) => data.list_ready(),
            (Phase::Dispatch, Event::Done) => data.dispatch(),
            (Phase::Setup { launch }, Event::Done) => data.go(Phase::Launch { launch }),
            (Phase::Setup { launch }, Event::StepFailed { text }) => data.refuse(
                &launch.task.id,
                text,
            ),
            (Phase::Launch { launch }, Event::Done) => data.after_launch(launch),
            (Phase::Launch { launch }, Event::Failed { error }) => if data.is_lacking_queue(
                &launch,
            ) {
                data.go(Phase::Launch { launch })
            } else {
                data.refuse(&launch.task.id, error.message())
            },
            (Phase::Announce { launch, .. }, Event::Done) => data.take_off(launch, now),
            (Phase::Check, Event::Done) => data.check(now),
            (Phase::Sleep, Event::Done) => data.go(Phase::Interrupt),
            (phase, _) => data.go(phase),
        }
    }

    /// The statuses of the tasks.
    pub fn states(&self) -> (r: &TaskStates)
        ensures
            r@ == self@.data.states,
    {
        &self.data.states
    }

    /// The workflow, with the tasks that have not been taken up.
    pub fn workflow(&self) -> (r: &Workflow)
        ensures
            r@ == self@.data.workflow,
    {
        &self.data.workflow
    }

    /// Takes the run apart: the workflow, the statuses, and how the run has ended, if
    /// it has. After an interrupt the outcome is settled once the statuses have been
    /// stored, when the action is `Finish`.
    pub fn into_parts(self) -> (r: (
        Workflow,
        TaskStates,
        Option<Result<WorkflowSummary, WorkflowError>>,
    ))
        ensures
            r.0@ == self@.data.workflow,
            r.1@ == self@.data.states,
            match r.2 {
                Some(Ok(summary)) => self@.phase == (PhaseView::Ended {
                    outcome: Ok(summary@),
                }),
                Some(Err(error)) => self@.phase == (PhaseView::Ended { outcome: Err(error@) }),
                None => !(self@.phase is Ended),
            },
    {
        let Run { data, phase, saving: _ } = self;
        let outcome = match phase {
            Phase::Ended { outcome } => Some(outcome),
            _ => None,
        };
        (data.workflow, data.states, outcome)
    }
}

impl Workflow {
    /// Begins a run, from the statuses that the tasks have.
    ///
    /// A run uses up the tasks that it takes up. When it has ended with a summary, the
    /// tasks that it did not take up remain, except those that depend on one that it did;
    /// running the workflow again, from the statuses that the run ended with, works on
    /// nothing.
    pub fn run(self, states: TaskStates) -> (r: Run)
        ensures
            r@ == initial(self@, states@),
            r.wf(),
    {
        let phase = if self.resolved_log_dir().is_some() {
            Phase::LogDir
        } else {
            Phase::Build
        };
        let data = RunData {
            workflow: self,
            states,
            dag: Dag::new(),
            handles: Vec::new(),
            started_at: 0,
            queue: Vec::new(),
            cursor: 0,
            hook_cursor: 0,
            dispatched: false,
        };
        assert(handle_views(data.handles@) =~= Seq::<InFlightView>::empty());
        assert(texts(data.queue@) =~= Seq::<Text>::empty());
        data.go(phase)
    }
}

} // verus!
