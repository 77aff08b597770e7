use workflow_core::dag::Dag;
use workflow_core::error::WorkflowError;
use workflow_core::monitoring::{
    elapsed_nanos, fire_hooks, is_periodic_due, HookTrigger, MonitoringHook, TaskPhase,
};
use workflow_core::path::{DirPath, Location};
use workflow_core::remains::keep_standing;
use workflow_core::skips::propagate_skips;
use workflow_core::state::{TaskStates, TaskStatus};
use workflow_core::summary::build_summary;
use workflow_core::task::{CollectFailurePolicy, ExecutionMode, Task};
use workflow_core::text::signed_decimal_text;
use workflow_core::workflow::Workflow;

fn s(text: &str) -> String {
    text.to_string()
}

fn graph(nodes: &[&str], edges: &[(&str, &str)]) -> Dag {
    let mut dag = Dag::new();
    for node in nodes {
        dag.add_node(&s(node)).unwrap();
    }
    for (from, to) in edges {
        dag.add_edge(&s(from), &s(to)).unwrap();
    }
    dag
}

#[test]
fn numbers_are_written_in_decimal() {
    for n in [0, 1, 9, 10, 11, 99, 100, 255, 1_000_007, i32::MAX, -1, -9, -10, -255, i32::MIN] {
        assert_eq!(signed_decimal_text(n), n.to_string());
    }
}

#[test]
fn errors_have_messages() {
    assert_eq!(
        WorkflowError::InvalidConfig(s("max_parallel must be at least 1")).message(),
        "invalid configuration: max_parallel must be at least 1"
    );
    assert_eq!(WorkflowError::DuplicateTaskId(s("a")).message(), "duplicate task id 'a'");
    assert_eq!(
        WorkflowError::UnknownDependency { task: s("a"), dependency: s("b") }.message(),
        "task 'a' depends on unknown task 'b'"
    );
    assert_eq!(WorkflowError::CycleDetected.message(), "dependency cycle detected");
    assert_eq!(WorkflowError::TaskTimeout(s("a")).message(), "task 'a' timed out");
    assert_eq!(WorkflowError::Interrupted.message(), "workflow interrupted");
    assert_eq!(WorkflowError::Io(s("disk full")).message(), "disk full");
}

#[test]
fn paths_are_read_as_the_platform_reads_them() {
    for text in ["", ".", "a", "a/b", "/", "/a", "../a"] {
        let path = DirPath::new(text);
        assert_eq!(path.text, text);
        assert_eq!(path.absolute, std::path::Path::new(text).is_absolute());
    }
    assert!(!DirPath::new("logs").absolute);
}

#[test]
fn the_root_applies_to_relative_directories() {
    let relative = DirPath { text: s("logs"), absolute: false };
    let absolute = DirPath { text: s("/logs"), absolute: true };
    let is = |location: Location, root: Option<&str>, path: &str| {
        location.root.as_deref() == root && location.path == path
    };
    assert!(is(relative.resolve(&None), None, "logs"));
    assert!(is(relative.resolve(&Some(s("r"))), Some("r"), "logs"));
    assert!(is(absolute.resolve(&None), None, "/logs"));
    assert!(is(absolute.resolve(&Some(s("r"))), None, "/logs"));

    let wf = Workflow::new("dirs", None).with_log_dir(relative).with_root_dir("r");
    assert!(is(wf.resolved_log_dir().unwrap(), Some("r"), "logs"));
    assert!(is(wf.resolve(&absolute), None, "/logs"));
    assert!(Workflow::new("dirs", None).resolved_log_dir().is_none());
}

#[test]
fn parallelism_comes_from_the_machine() {
    assert_eq!(Workflow::new("p", None).max_parallel(), 4);
    assert_eq!(Workflow::new("p", Some(12)).max_parallel(), 12);
    assert_eq!(Workflow::new("p", Some(12)).name, "p");
    assert_eq!(Workflow::new("p", Some(12)).with_root_dir("r").name(), "p");
    match Workflow::new("p", None).with_max_parallel(0) {
        Err(WorkflowError::InvalidConfig(text)) => {
            assert_eq!(text, "max_parallel must be at least 1")
        }
        _ => panic!("zero is refused"),
    }
}

#[test]
fn a_refused_task_changes_nothing() {
    let mut wf = Workflow::new("dup", None);
    wf.add_task(Task::new("a", ExecutionMode::Queued)).unwrap();
    wf.add_task(Task::new("a", ExecutionMode::Queued).depends_on("z")).unwrap_err();
    assert_eq!(wf.task_count(), 1);
    assert!(wf.tasks()[0].dependencies.is_empty());
}

#[test]
fn tasks_are_built_step_by_step() {
    let task = Task::new("a", ExecutionMode::Queued);
    assert!(!task.setup && !task.collect && task.monitors.is_empty());
    assert_eq!(task.workdir.text, ".");
    assert_eq!(task.collect_failure_policy, CollectFailurePolicy::FailTask);
    let task = task
        .depends_on("b")
        .depends_on("c")
        .workdir(DirPath::new("w"))
        .setup()
        .collect()
        .collect_failure_policy(CollectFailurePolicy::WarnOnly);
    assert_eq!(task.dependencies, vec!["b", "c"]);
    assert_eq!(task.workdir.text, "w");
    assert!(task.setup && task.collect);
    assert_eq!(task.collect_failure_policy, CollectFailurePolicy::WarnOnly);
}

#[test]
fn graphs_refuse_what_does_not_fit() {
    let mut dag = graph(&["a", "b", "c"], &[("a", "b"), ("b", "c")]);
    assert!(matches!(dag.add_node(&s("a")), Err(WorkflowError::DuplicateTaskId(id)) if id == "a"));
    assert!(matches!(
        dag.add_edge(&s("z"), &s("a")),
        Err(WorkflowError::UnknownDependency { task, dependency }) if task == "a" && dependency == "z"
    ));
    assert!(matches!(dag.add_edge(&s("c"), &s("a")), Err(WorkflowError::CycleDetected)));
    assert!(dag.add_edge(&s("a"), &s("c")).is_ok());
    assert_eq!(*dag.task_ids(), vec!["a", "b", "c"]);
}

#[test]
fn the_topological_order_follows_every_edge() {
    let edges = [("e", "d"), ("d", "c"), ("e", "b"), ("b", "a"), ("c", "a")];
    let dag = graph(&["a", "b", "c", "d", "e", "f"], &edges);
    let order = dag.topological_order();
    assert_eq!(order.len(), 6);
    let at = |id: &str| order.iter().position(|x| x == id).unwrap();
    for (from, to) in edges {
        assert!(at(from) < at(to));
    }
    assert_eq!(dag.successors(&s("e")), vec!["d", "b"]);
    assert_eq!(dag.successor_table().get("d").unwrap(), &vec![s("c")]);
}

#[test]
fn ready_tasks_have_only_done_dependencies() {
    let dag = graph(&["a", "b", "c"], &[("a", "b"), ("b", "c")]);
    let mut states = TaskStates::new();
    assert_eq!(dag.ready_tasks(&states), vec!["a"]);
    states.mark_failed(&s("a"), s("x"));
    assert!(!dag.ready_tasks(&states).contains(&s("b")));
    states.mark_completed(&s("a"));
    assert_eq!(dag.ready_tasks(&states), vec!["b"]);
}

#[test]
fn skips_reach_every_dependent_and_no_other() {
    let dag = graph(&["c", "b", "a", "x", "y"], &[("a", "b"), ("b", "c"), ("x", "y")]);
    let tasks = vec![
        Task::new("c", ExecutionMode::Queued).depends_on("b"),
        Task::new("b", ExecutionMode::Queued).depends_on("a"),
        Task::new("x", ExecutionMode::Queued),
        Task::new("y", ExecutionMode::Queued).depends_on("x"),
    ];
    let mut states = TaskStates::new();
    states.init_pending(&vec![s("c"), s("b"), s("a"), s("x"), s("y")]);
    assert!(!propagate_skips(&dag, &mut states, &tasks));
    states.mark_failed(&s("a"), s("exit code 1"));
    assert!(propagate_skips(&dag, &mut states, &tasks));
    for id in ["b", "c"] {
        assert!(matches!(states.get_status(id), Some(TaskStatus::SkippedDueToDependencyFailure)));
    }
    for id in ["x", "y"] {
        assert!(matches!(states.get_status(id), Some(TaskStatus::Pending)));
    }
    assert!(matches!(states.get_status("a"), Some(TaskStatus::Failed { .. })));
    assert!(!propagate_skips(&dag, &mut states, &tasks));
}

#[test]
fn what_depends_on_something_missing_does_not_stand() {
    let task = |id: &str, dependencies: &[&str]| {
        let mut task = Task::new(id, ExecutionMode::Queued);
        for dependency in dependencies {
            task = task.depends_on(dependency);
        }
        task
    };
    let mut tasks = vec![
        task("c", &["b"]),
        task("b", &["a", "gone"]),
        task("a", &[]),
        task("d", &["a"]),
        task("x", &["y"]),
        task("y", &["x"]),
    ];
    keep_standing(&mut tasks);
    let ids: Vec<&str> = tasks.iter().map(|task| task.id.as_str()).collect();
    assert_eq!(ids, vec!["a", "d", "x", "y"]);
    let mut none: Vec<Task> = vec![];
    keep_standing(&mut none);
    assert!(none.is_empty());
}

#[test]
fn a_running_dependent_is_not_skipped() {
    let dag = graph(&["a", "b"], &[("a", "b")]);
    let tasks = vec![Task::new("b", ExecutionMode::Queued).depends_on("a")];
    let mut states = TaskStates::new();
    states.mark_failed(&s("a"), s("x"));
    states.mark_running(&s("b"));
    assert!(!propagate_skips(&dag, &mut states, &tasks));
    assert!(matches!(states.get_status("b"), Some(TaskStatus::Running)));
}

#[test]
fn statuses_are_recovered_for_a_later_run() {
    let mut states = TaskStates::new();
    states.mark_completed(&s("completed"));
    states.mark_failed(&s("failed"), s("why"));
    states.mark_running(&s("running"));
    states.mark_skipped_due_to_dep_failure(&s("blocked"));
    states.set_status(&s("skipped"), TaskStatus::Skipped);
    states.set_status(&s("pending"), TaskStatus::Pending);
    for _ in 0..2 {
        states = states.recover();
        assert!(states.is_completed("completed"));
        assert!(matches!(states.get_status("failed"), Some(TaskStatus::Failed { error }) if error == "why"));
        assert!(matches!(states.get_status("running"), Some(TaskStatus::Pending)));
        assert!(matches!(states.get_status("blocked"), Some(TaskStatus::Pending)));
        assert!(matches!(states.get_status("skipped"), Some(TaskStatus::Skipped)));
        assert!(matches!(states.get_status("pending"), Some(TaskStatus::Pending)));
        assert!(states.get_status("unknown").is_none());
        assert_eq!(states.ids().len(), 6);
    }
}

#[test]
fn pending_is_given_only_where_there_is_no_status() {
    let mut states = TaskStates::new();
    states.mark_completed(&s("a"));
    states.init_pending(&vec![s("a"), s("b"), s("b")]);
    assert!(states.is_completed("a"));
    assert!(matches!(states.get_status("b"), Some(TaskStatus::Pending)));
    assert_eq!(states.all_tasks().len(), 2);
    states.reset_pending(&vec![s("a")]);
    assert!(matches!(states.get_status("a"), Some(TaskStatus::Pending)));
}

#[test]
fn a_summary_names_every_ended_task_once() {
    let mut states = TaskStates::new();
    states.mark_completed(&s("a"));
    states.mark_failed(&s("b"), s("why"));
    states.set_status(&s("c"), TaskStatus::Skipped);
    states.mark_skipped_due_to_dep_failure(&s("d"));
    states.mark_running(&s("e"));
    states.set_status(&s("f"), TaskStatus::Pending);
    let summary = build_summary(&states, 7);
    assert_eq!(summary.succeeded, vec!["a"]);
    assert_eq!(summary.failed.len(), 1);
    assert_eq!((summary.failed[0].id.as_str(), summary.failed[0].error.as_str()), ("b", "why"));
    assert_eq!(summary.skipped, vec!["c", "d"]);
    assert_eq!(summary.duration_nanos, 7);
    assert_eq!(format!("{:?}", summary.clone()), format!("{:?}", summary));
}

#[test]
fn periodic_hooks_are_due_after_the_interval() {
    let trigger = HookTrigger::Periodic { interval_secs: 2 };
    assert!(!is_periodic_due(trigger, 10, 2_000_000_009));
    assert!(is_periodic_due(trigger, 10, 2_000_000_010));
    assert!(is_periodic_due(HookTrigger::Periodic { interval_secs: 0 }, 10, 10));
    assert!(!is_periodic_due(HookTrigger::OnStart, 0, u128::MAX));
    assert!(!is_periodic_due(HookTrigger::Periodic { interval_secs: u64::MAX }, 0, 1));
    assert_eq!(elapsed_nanos(3, 10), 7);
    assert_eq!(elapsed_nanos(10, 3), 0);
}

#[test]
fn hooks_fire_on_their_phase_only() {
    let hook = |name: &str, trigger: HookTrigger| MonitoringHook {
        name: s(name),
        command: s("echo"),
        trigger,
    };
    let monitors = vec![
        hook("start", HookTrigger::OnStart),
        hook("complete", HookTrigger::OnComplete),
        hook("failure", HookTrigger::OnFailure),
        hook("periodic", HookTrigger::Periodic { interval_secs: 0 }),
        hook("again", HookTrigger::OnStart),
    ];
    let workdir = Location { root: None, path: s("w") };
    let names = |phase: TaskPhase| -> Vec<String> {
        let batch = fire_hooks(&monitors, &workdir, phase, Some(3), &s("t"));
        assert_eq!(batch.context.task_id, "t");
        assert_eq!(batch.context.workdir.path, "w");
        assert_eq!(batch.context.phase, phase);
        assert_eq!(batch.context.exit_code, Some(3));
        batch.hooks.iter().map(|hook| hook.name.clone()).collect()
    };
    assert_eq!(names(TaskPhase::Running), vec!["start", "again"]);
    assert_eq!(names(TaskPhase::Completed), vec!["complete"]);
    assert_eq!(names(TaskPhase::Failed), vec!["failure"]);
}
