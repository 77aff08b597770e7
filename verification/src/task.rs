//! Tasks: what is to be done, where, and after what.

use crate::monitoring::{hook_views, MonitoringHook, MonitoringHookView};
use crate::path::{DirPath, DirPathView};
use crate::text::{first_index, lemma_first_unique, texts, Text};
use vstd::prelude::*;
use vstd::string::*;

verus! {

/// How a task is executed.
#[derive(Debug)]
pub enum ExecutionMode {
    /// As a process of its own, ended when it has run for `timeout_nanos`.
    Direct {
        command: String,
        args: Vec<String>,
        env: Vec<(String, String)>,
        timeout_nanos: Option<u128>,
    },
    /// By a queue that the task is handed to.
    Queued,
}

/// The content of an [`ExecutionMode`].
pub enum ExecutionModeView {
    Direct {
        command: Text,
        args: Seq<Text>,
        env: Seq<(Text, Text)>,
        timeout_nanos: Option<u128>,
    },
    Queued,
}

impl View for ExecutionMode {
    type V = ExecutionModeView;

    open spec fn view(&self) -> ExecutionModeView {
        match *self {
            ExecutionMode::Direct { command, args, env, timeout_nanos } =>
                ExecutionModeView::Direct {
                    command: command@,
                    args: texts(args@),
                    env: text_pairs(env@),
                    timeout_nanos,
                },
            ExecutionMode::Queued => ExecutionModeView::Queued,
        }
    }
}

/// The contents of a list of pairs of strings.
pub open spec fn text_pairs(pairs: Seq<(String, String)>) -> Seq<(Text, Text)> {
    pairs.map_values(|pair: (String, String)| (pair.0@, pair.1@))
}

impl ExecutionModeView {
    /// How long a task of that mode may run.
    pub open spec fn timeout(self) -> Option<u128> {
        match self {
            ExecutionModeView::Direct { command, args, env, timeout_nanos } => timeout_nanos,
            ExecutionModeView::Queued => None,
        }
    }
}

/// What becomes of a task whose results cannot be collected.
#[derive(Debug, Clone, Copy, PartialEq, Eq, Structural)]
pub enum CollectFailurePolicy {
    /// The task has failed.
    FailTask,
    /// The task has completed all the same.
    WarnOnly,
}

/// A task of a workflow.
///
/// The steps before and after the process of a task are code of the program that
/// defines the task; the task holds whether there is such a step.
#[derive(Debug)]
pub struct Task {
    pub id: String,
    pub dependencies: Vec<String>,
    pub mode: ExecutionMode,
    pub workdir: DirPath,
    /// Whether a step is to be taken before the task is started.
    pub setup: bool,
    /// Whether results are to be collected when the process has ended well.
    pub collect: bool,
    pub monitors: Vec<MonitoringHook>,
    pub collect_failure_policy: CollectFailurePolicy,
}

/// The content of a [`Task`].
pub struct TaskView {
    pub id: Text,
    pub dependencies: Seq<Text>,
    pub mode: ExecutionModeView,
    pub workdir: DirPathView,
    pub setup: bool,
    pub collect: bool,
    pub monitors: Seq<MonitoringHookView>,
    pub collect_failure_policy: CollectFailurePolicy,
}

impl View for Task {
    type V = TaskView;

    open spec fn view(&self) -> TaskView {
        TaskView {
            id: self.id@,
            dependencies: texts(self.dependencies@),
            mode: self.mode@,
            workdir: self.workdir@,
            setup: self.setup,
            collect: self.collect,
            monitors: hook_views(self.monitors@),
            collect_failure_policy: self.collect_failure_policy,
        }
    }
}

/// The contents of a sequence of tasks.
pub open spec fn task_views(tasks: Seq<Task>) -> Seq<TaskView> {
    tasks.map_values(|task: Task| task@)
}

/// The ids of a sequence of tasks.
pub open spec fn task_ids(tasks: Seq<TaskView>) -> Seq<Text> {
    tasks.map_values(|task: TaskView| task.id)
}

impl Task {
    /// Creates a task without dependencies, steps or hooks, in the current directory.
    pub fn new(id: &str, mode: ExecutionMode) -> (r: Task)
        ensures
            r@ == (TaskView {
                id: id@,
                dependencies: Seq::empty(),
                mode: mode@,
                workdir: DirPathView { text: "."@, absolute: false },
                setup: false,
                collect: false,
                monitors: Seq::empty(),
                collect_failure_policy: CollectFailurePolicy::FailTask,
            }),
    {
        let r = Task {
            id: id.to_owned(),
            dependencies: Vec::new(),
            mode,
            workdir: DirPath { text: String::from_str("."), absolute: false },
            setup: false,
            collect: false,
            monitors: Vec::new(),
            collect_failure_policy: CollectFailurePolicy::FailTask,
        };
        assert(r@.dependencies =~= Seq::empty());
        assert(r@.monitors =~= Seq::empty());
        r
    }

    /// Adds a dependency.
    pub fn depends_on(self, id: &str) -> (r: Task)
        ensures
            r@ == (TaskView { dependencies: self@.dependencies.push(id@), ..self@ }),
    {
        let mut r = self;
        let ghost before = r.dependencies@;
        r.dependencies.push(id.to_owned());
        assert(texts(r.dependencies@) =~= texts(before).push(id@));
        r
    }

    /// Sets the directory in which the task works.
    pub fn workdir(self, path: DirPath) -> (r: Task)
        ensures
            r@ == (TaskView { workdir: path@, ..self@ }),
    {
        Task { workdir: path, ..self }
    }

    /// Has a step taken before the task is started.
    pub fn setup(self) -> (r: Task)
        ensures
            r@ == (TaskView { setup: true, ..self@ }),
    {
        Task { setup: true, ..self }
    }

    /// Has results collected when the process of the task has ended well.
    pub fn collect(self) -> (r: Task)
        ensures
            r@ == (TaskView { collect: true, ..self@ }),
    {
        Task { collect: true, ..self }
    }

    /// Sets what becomes of the task when its results cannot be collected.
    pub fn collect_failure_policy(self, policy: CollectFailurePolicy) -> (r: Task)
        ensures
            r@ == (TaskView { collect_failure_policy: policy, ..self@ }),
    {
        Task { collect_failure_policy: policy, ..self }
    }

    /// Adds a hook.
    pub fn monitor(self, hook: MonitoringHook) -> (r: Task)
        ensures
            r@ == (TaskView { monitors: self@.monitors.push(hook@), ..self@ }),
    {
        let mut r = self;
        let ghost before = r.monitors@;
        r.monitors.push(hook);
        assert(hook_views(r.monitors@) =~= hook_views(before).push(hook@));
        r
    }
}

/// Copies a list of pairs of strings.
pub fn copy_text_pairs(pairs: &Vec<(String, String)>) -> (r: Vec<(String, String)>)
    ensures
        text_pairs(r@) == text_pairs(pairs@),
{
    let mut r: Vec<(String, String)> = Vec::new();
    let mut i: usize = 0;
    while i < pairs.len()
        invariant
            i <= pairs.len(),
            r.len() == i,
            forall|j: int| 0 <= j < i ==> text_pairs(r@)[j] == text_pairs(pairs@)[j],
        decreases pairs.len() - i,
    {
        r.push((pairs[i].0.clone(), pairs[i].1.clone()));
        i = i + 1;
    }
    assert(text_pairs(r@) =~= text_pairs(pairs@));
    r
}

/// Finds the first task of an id.
pub fn find_task(tasks: &Vec<Task>, id: &String) -> (r: Option<usize>)
    ensures
        match r {
            Some(i) => i < tasks.len() && first_index(task_ids(task_views(tasks@)), id@) == Some(
                i as int,
            ),
            None => first_index(task_ids(task_views(tasks@)), id@) is None,
        },
{
    let ghost ids = task_ids(task_views(tasks@));
    let mut i: usize = 0;
    while i < tasks.len()
        invariant
            i <= tasks.len(),
            ids == task_ids(task_views(tasks@)),
            forall|j: int| 0 <= j < i ==> ids[j] != id@,
        decreases tasks.len() - i,
    {
        if tasks[i].id == *id {
            proof {
                lemma_first_unique(ids, id@, i as int);
            }
            return Some(i);
        }
        i = i + 1;
    }
    None
}

} // verus!
