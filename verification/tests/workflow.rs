use std::collections::HashMap;
use std::sync::Arc;

use workflow_core::error::WorkflowError;
use workflow_core::monitoring::{HookTrigger, MonitoringHook, TaskPhase};
use workflow_core::path::{DirPath, Location};
use workflow_core::process::{ProcessHandle, QueuedSubmitter, Submitter};
use workflow_core::protocol::{Action, Event};
use workflow_core::run::Run;
use workflow_core::state::{TaskStates, TaskStatus};
use workflow_core::summary::WorkflowSummary;
use workflow_core::task::{CollectFailurePolicy, ExecutionMode, Task};
use workflow_core::workflow::Workflow;

/// The outside of a run: processes that end as their command says, a clock that only
/// moves when the run sleeps, and a record of what was asked for.
struct World {
    now: u128,
    log: Vec<String>,
    commands: HashMap<String, String>,
    /// How often the process of a task still says that it is running.
    polls: HashMap<String, u32>,
    setup_failures: HashMap<String, String>,
    collect_failures: HashMap<String, String>,
    interrupt: bool,
    interrupt_on_setup: Option<String>,
    log_dir_failure: Option<String>,
    saves: u32,
    failing_save: Option<u32>,
    stored: Vec<(String, String)>,
    in_flight: usize,
    most_in_flight: usize,
}

impl World {
    fn new() -> World {
        World {
            now: 1_000,
            log: Vec::new(),
            commands: HashMap::new(),
            polls: HashMap::new(),
            setup_failures: HashMap::new(),
            collect_failures: HashMap::new(),
            interrupt: false,
            interrupt_on_setup: None,
            log_dir_failure: None,
            saves: 0,
            failing_save: None,
            stored: Vec::new(),
            in_flight: 0,
            most_in_flight: 0,
        }
    }

    fn has(&self, line: &str) -> bool {
        self.log.iter().any(|l| l == line)
    }

    fn count(&self, line: &str) -> usize {
        self.log.iter().filter(|l| l.as_str() == line).count()
    }

    fn position(&self, line: &str) -> usize {
        self.log.iter().position(|l| l == line).unwrap()
    }

    fn perform(&mut self, action: Action, states: &TaskStates) -> Event {
        match action {
            Action::Proceed => Event::Done,
            Action::CreateLogDir { dir } => {
                self.log.push(format!("create {}", shown(&dir)));
                match &self.log_dir_failure {
                    Some(text) => Event::Failed { error: WorkflowError::Io(text.clone()) },
                    None => Event::Done,
                }
            }
            Action::Save => {
                self.saves += 1;
                if self.failing_save == Some(self.saves) {
                    return Event::Failed { error: WorkflowError::Io("disk full".to_string()) };
                }
                self.stored = listed(states);
                Event::Done
            }
            Action::CheckInterrupt => Event::Interrupted { yes: self.interrupt },
            Action::TerminateAll { ids } => {
                for id in ids {
                    self.log.push(format!("terminate {}", id));
                }
                Event::Done
            }
            Action::Terminate { id } => {
                self.log.push(format!("terminate {}", id));
                self.in_flight -= 1;
                Event::Done
            }
            Action::IsRunning { id } => {
                let left = self.polls.entry(id).or_insert(0);
                if *left > 0 {
                    *left -= 1;
                    Event::Running { yes: true }
                } else {
                    Event::Running { yes: false }
                }
            }
            Action::Wait { id } => {
                self.log.push(format!("wait {}", id));
                self.in_flight -= 1;
                match self.commands[&id].as_str() {
                    "true" => Event::Exited { code: Some(0) },
                    "false" => Event::Exited { code: Some(1) },
                    "killed" => Event::Exited { code: None },
                    "overflow" => Event::Exited { code: Some(i32::MIN) },
                    _ => Event::Failed { error: WorkflowError::Io("lost".to_string()) },
                }
            }
            Action::RunCollect { id, workdir, policy } => {
                self.log.push(format!("collect {} in {} {:?}", id, shown(&workdir), policy));
                match self.collect_failures.get(&id) {
                    Some(text) => Event::StepFailed { text: text.clone() },
                    None => Event::Done,
                }
            }
            Action::FireHooks { batch } => {
                for hook in &batch.hooks {
                    self.log.push(format!(
                        "hook {} of {} in {} {:?} {:?}",
                        hook.name,
                        batch.context.task_id,
                        shown(&batch.context.workdir),
                        batch.context.phase,
                        batch.context.exit_code
                    ));
                }
                Event::Done
            }
            Action::RunSetup { id, workdir } => {
                self.log.push(format!("setup {} in {}", id, shown(&workdir)));
                if self.interrupt_on_setup.as_ref() == Some(&id) {
                    self.interrupt = true;
                }
                match self.setup_failures.get(&id) {
                    Some(text) => Event::StepFailed { text: text.clone() },
                    None => Event::Done,
                }
            }
            Action::Spawn { id, workdir, command, args, env } => {
                self.log.push(format!(
                    "spawn {} in {}: {} {:?} {:?}",
                    id,
                    shown(&workdir),
                    command,
                    args,
                    env
                ));
                if command == "missing" {
                    return Event::Failed { error: WorkflowError::Io("no such command".to_string()) };
                }
                self.commands.insert(id, command);
                self.in_flight += 1;
                self.most_in_flight = self.most_in_flight.max(self.in_flight);
                Event::Done
            }
            Action::Submit { id, workdir, log_dir } => {
                self.log.push(format!("submit {} in {} logs {}", id, shown(&workdir), shown(&log_dir)));
                self.commands.insert(id, "true".to_string());
                self.in_flight += 1;
                Event::Done
            }
            Action::Sleep { millis } => {
                self.now += u128::from(millis) * 1_000_000;
                assert_eq!(self.stored, listed(states));
                Event::Done
            }
            Action::Finish => unreachable!(),
        }
    }
}

fn shown(location: &Location) -> String {
    match &location.root {
        Some(root) => format!("<{}>{}", root, location.path),
        None => location.path.clone(),
    }
}

fn listed(states: &TaskStates) -> Vec<(String, String)> {
    states.all_tasks().into_iter().map(|(id, status)| (id, format!("{:?}", status))).collect()
}

fn drive(
    workflow: Workflow,
    states: TaskStates,
    world: &mut World,
) -> (Workflow, TaskStates, Result<WorkflowSummary, WorkflowError>) {
    let mut run: Run = workflow.run(states);
    for _ in 0..100_000 {
        let action = run.action();
        if matches!(action, Action::Finish) {
            let (workflow, states, outcome) = run.into_parts();
            return (workflow, states, outcome.unwrap());
        }
        let event = world.perform(action, run.states());
        let now = world.now;
        run = run.handle(event, now);
    }
    panic!("the run does not end");
}

fn direct(command: &str) -> ExecutionMode {
    ExecutionMode::Direct {
        command: command.to_string(),
        args: vec![],
        env: vec![],
        timeout_nanos: None,
    }
}

fn hook(name: &str, trigger: HookTrigger) -> MonitoringHook {
    MonitoringHook { name: name.to_string(), command: "notify".to_string(), trigger }
}

#[test]
fn single_task_completes() -> Result<(), WorkflowError> {
    let mut wf = Workflow::new("wf_single", None).with_max_parallel(4)?;
    wf.add_task(Task::new("a", direct("true"))).unwrap();

    let mut world = World::new();
    let (_, _, outcome) = drive(wf, TaskStates::new(), &mut world);
    let summary = outcome?;
    assert_eq!(summary.succeeded.len(), 1);
    assert!(summary.failed.is_empty());
    Ok(())
}

#[test]
fn chain_respects_order() -> Result<(), WorkflowError> {
    let mut wf = Workflow::new("wf_chain", None).with_max_parallel(4)?;
    wf.add_task(Task::new("a", direct("true")).setup()).unwrap();
    wf.add_task(Task::new("b", direct("true")).depends_on("a").setup()).unwrap();

    let mut world = World::new();
    let (_, _, outcome) = drive(wf, TaskStates::new(), &mut world);
    outcome?;
    let log: Vec<&str> = world
        .log
        .iter()
        .filter_map(|line| line.strip_prefix("setup "))
        .map(|line| &line[..1])
        .collect();
    assert_eq!(log, vec!["a", "b"]);
    Ok(())
}

#[test]
fn failed_task_skips_dependent() -> Result<(), WorkflowError> {
    let mut wf = Workflow::new("wf_skip", None).with_max_parallel(4)?;
    wf.add_task(Task::new("a", direct("false"))).unwrap();
    wf.add_task(Task::new("b", direct("true")).depends_on("a")).unwrap();

    let mut world = World::new();
    let (_, state, outcome) = drive(wf, TaskStates::new(), &mut world);
    outcome?;
    assert!(matches!(state.get_status("b"), Some(TaskStatus::SkippedDueToDependencyFailure)));

    let state = state.recover();
    assert!(matches!(state.get_status("b"), Some(TaskStatus::Pending)));
    Ok(())
}

#[test]
fn dry_run_returns_topo_order() -> Result<(), WorkflowError> {
    let mut wf = Workflow::new("wf_dry", None);
    wf.add_task(Task::new("a", direct("true"))).unwrap();
    wf.add_task(Task::new("b", direct("true")).depends_on("a")).unwrap();

    let order = wf.dry_run()?;
    let pa = order.iter().position(|x| x == "a").unwrap();
    let pb = order.iter().position(|x| x == "b").unwrap();
    assert!(pa < pb);
    Ok(())
}

#[test]
fn duplicate_task_id_errors() -> Result<(), WorkflowError> {
    let mut wf = Workflow::new("wf_dup", None);
    wf.add_task(Task::new("a", direct("true"))).unwrap();

    assert!(matches!(
        wf.add_task(Task::new("a", direct("true"))),
        Err(WorkflowError::DuplicateTaskId(_))
    ));
    Ok(())
}

#[test]
fn valid_dependency_add() -> Result<(), WorkflowError> {
    let mut wf = Workflow::new("wf_dep", None);
    wf.add_task(Task::new("a", direct("true"))).unwrap();

    assert!(wf.add_task(Task::new("b", direct("true")).depends_on("a")).is_ok());
    Ok(())
}

#[test]
fn builder_with_custom_max_parallel() {
    let wf = match Workflow::new("test", None).with_max_parallel(4) {
        Ok(wf) => wf,
        Err(e) => panic!("{:?}", e),
    };
    assert_eq!(wf.max_parallel(), 4);
}

#[test]
fn three_task_chain_skip_propagation() -> Result<(), WorkflowError> {
    let mut wf = Workflow::new("wf_chain_skip", None).with_max_parallel(4)?;
    wf.add_task(Task::new("a", direct("false"))).unwrap();
    wf.add_task(Task::new("b", direct("true")).depends_on("a")).unwrap();
    wf.add_task(Task::new("c", direct("true")).depends_on("b")).unwrap();

    let mut world = World::new();
    let (_, state, outcome) = drive(wf, TaskStates::new(), &mut world);
    outcome?;

    assert!(matches!(state.get_status("a"), Some(TaskStatus::Failed { .. })));
    assert!(matches!(state.get_status("b"), Some(TaskStatus::SkippedDueToDependencyFailure)));
    assert!(matches!(state.get_status("c"), Some(TaskStatus::SkippedDueToDependencyFailure)));
    Ok(())
}

#[test]
fn builder_validation_zero_parallelism() {
    let result = Workflow::new("test", None).with_max_parallel(0);
    assert!(result.is_err());
}

#[test]
fn resume_loads_existing_state() -> Result<(), WorkflowError> {
    // First run
    let mut wf1 = Workflow::new("wf_resume", None);
    wf1.add_task(Task::new("a", direct("true"))).unwrap();
    let mut world = World::new();
    let (_, state1, outcome) = drive(wf1, TaskStates::new(), &mut world);
    outcome?;

    // Second run (resume)
    let mut wf2 = Workflow::new("wf_resume", None);
    wf2.add_task(Task::new("a", direct("false"))).unwrap();
    let mut world = World::new();
    let (_, state2, outcome) = drive(wf2, state1.recover(), &mut world);
    outcome?;

    // Task "a" should still be Completed (not re-run)
    assert!(state2.is_completed("a"));
    assert!(world.log.is_empty());
    Ok(())
}

#[test]
fn interrupt_before_run_dispatches_nothing() -> Result<(), WorkflowError> {
    let mut wf = Workflow::new("wf_interrupt", None).with_max_parallel(4)?;
    wf.add_task(Task::new("a", direct("true"))).unwrap();

    let mut world = World::new();
    world.interrupt = true;
    let (_, state, result) = drive(wf, TaskStates::new(), &mut world);
    assert!(matches!(result.unwrap_err(), WorkflowError::Interrupted));
    assert!(!matches!(state.get_status("a"), Some(TaskStatus::Completed)));
    assert!(world.log.is_empty());
    Ok(())
}

#[test]
fn interrupt_mid_run_stops_dispatch() -> Result<(), WorkflowError> {
    let mut wf = Workflow::new("wf_interrupt2", None).with_max_parallel(4)?;
    wf.add_task(Task::new("a", direct("true")).setup()).unwrap();
    wf.add_task(Task::new("b", direct("true")).depends_on("a")).unwrap();

    let mut world = World::new();
    world.interrupt_on_setup = Some("a".to_string());
    let (_, state, result) = drive(wf, TaskStates::new(), &mut world);
    assert!(matches!(result.unwrap_err(), WorkflowError::Interrupted));
    assert!(matches!(state.get_status("a"), Some(TaskStatus::Pending)));
    assert!(matches!(state.get_status("b"), Some(TaskStatus::Pending)));
    assert!(world.has("terminate a"));
    assert!(!world.has("wait a"));
    assert_eq!(world.stored, listed(&state));
    Ok(())
}

#[test]
fn no_more_tasks_than_allowed_are_in_flight() {
    let mut wf = match Workflow::new("narrow", Some(8)).with_max_parallel(2) {
        Ok(wf) => wf,
        Err(e) => panic!("{:?}", e),
    };
    let mut world = World::new();
    for id in ["a", "b", "c", "d", "e"] {
        wf.add_task(Task::new(id, direct("true"))).unwrap();
        world.polls.insert(id.to_string(), 3);
    }
    let (_, _, outcome) = drive(wf, TaskStates::new(), &mut world);
    assert_eq!(outcome.unwrap().succeeded.len(), 5);
    assert_eq!(world.most_in_flight, 2);
}

#[test]
fn a_task_is_started_after_its_dependencies_and_once() {
    let mut wf = Workflow::new("diamond", Some(4));
    wf.add_task(Task::new("d", direct("true")).depends_on("b").depends_on("c")).unwrap();
    wf.add_task(Task::new("c", direct("true")).depends_on("a")).unwrap();
    wf.add_task(Task::new("b", direct("true")).depends_on("a")).unwrap();
    wf.add_task(Task::new("a", direct("true"))).unwrap();
    let mut world = World::new();
    world.polls.insert("c".to_string(), 4);
    let (wf, _, outcome) = drive(wf, TaskStates::new(), &mut world);
    let summary = outcome.unwrap();
    let mut succeeded = summary.succeeded;
    succeeded.sort();
    assert_eq!(succeeded, vec!["a", "b", "c", "d"]);
    assert!(summary.skipped.is_empty());
    let spawn = |id: &str| format!("spawn {} in .: true [] []", id);
    let wait = |id: &str| format!("wait {}", id);
    assert!(world.position(&wait("a")) < world.position(&spawn("b")));
    assert!(world.position(&wait("a")) < world.position(&spawn("c")));
    assert!(world.position(&wait("b")) < world.position(&spawn("d")));
    assert!(world.position(&wait("c")) < world.position(&spawn("d")));
    for id in ["a", "b", "c", "d"] {
        assert_eq!(world.count(&spawn(id)), 1);
    }
    assert_eq!(wf.task_count(), 0);
}

#[test]
fn successors_are_known_after_the_graph_is_built() {
    let mut wf = Workflow::new("diamond", Some(4));
    wf.add_task(Task::new("a", direct("true"))).unwrap();
    wf.add_task(Task::new("b", direct("true")).depends_on("a")).unwrap();
    wf.add_task(Task::new("c", direct("true")).depends_on("a")).unwrap();
    assert!(wf.successor_map().is_none());
    let (wf, _, outcome) = drive(wf, TaskStates::new(), &mut World::new());
    outcome.unwrap();
    let successors = wf.successor_map().unwrap();
    assert_eq!(*successors.get("a").unwrap(), vec!["b", "c"]);
    assert_eq!(*successors.get("b").unwrap(), Vec::<String>::new());
    assert!(successors.get("d").is_none());
}

#[test]
fn exit_codes_are_told() {
    for (command, text, code) in [
        ("false", "exit code 1", "Some(1)"),
        ("killed", "exit code -1", "None"),
        ("overflow", "exit code -2147483648", "Some(-2147483648)"),
        ("lost", "process terminated", "None"),
    ] {
        let mut wf = Workflow::new("exits", Some(1));
        wf.add_task(
            Task::new("a", direct(command))
                .collect()
                .monitor(hook("bad", HookTrigger::OnFailure))
                .monitor(hook("good", HookTrigger::OnComplete)),
        )
        .unwrap();
        let mut world = World::new();
        let (_, state, outcome) = drive(wf, TaskStates::new(), &mut world);
        let summary = outcome.unwrap();
        assert_eq!(summary.failed.len(), 1);
        assert_eq!(summary.failed[0].id, "a");
        assert_eq!(summary.failed[0].error, text);
        assert!(matches!(state.get_status("a"), Some(TaskStatus::Failed { error }) if error == text));
        assert_eq!(world.log.last().unwrap(), &format!("hook bad of a in . Failed {}", code));
        assert!(!world.log.iter().any(|line| line.starts_with("collect")));
    }
}

#[test]
fn hooks_run_when_a_task_starts_and_completes() {
    let mut wf = Workflow::new("hooks", Some(1));
    wf.add_task(
        Task::new("a", direct("true"))
            .workdir(DirPath::new("work"))
            .monitor(hook("s1", HookTrigger::OnStart))
            .monitor(hook("f", HookTrigger::OnFailure))
            .monitor(hook("s2", HookTrigger::OnStart))
            .monitor(hook("c", HookTrigger::OnComplete)),
    )
    .unwrap();
    let mut world = World::new();
    let (_, _, outcome) = drive(wf, TaskStates::new(), &mut world);
    outcome.unwrap();
    assert_eq!(
        world.log,
        vec![
            "spawn a in work: true [] []",
            "hook s1 of a in work Running None",
            "hook s2 of a in work Running None",
            "wait a",
            "hook c of a in work Completed Some(0)",
        ]
    );
}

#[test]
fn periodic_hooks_run_again_and_again() {
    let mut wf = Workflow::new("periodic", Some(1));
    wf.add_task(
        Task::new("a", direct("true")).monitor(hook("p", HookTrigger::Periodic { interval_secs: 1 })),
    )
    .unwrap();
    let mut world = World::new();
    // A round takes 50 milliseconds, so the hook is due after each 20 rounds.
    world.polls.insert("a".to_string(), 59);
    let (_, _, outcome) = drive(wf, TaskStates::new(), &mut world);
    outcome.unwrap();
    assert_eq!(world.count("hook p of a in . Running None"), 2);

    let mut wf = Workflow::new("periodic", Some(1));
    wf.add_task(
        Task::new("a", direct("true")).monitor(hook("p", HookTrigger::Periodic { interval_secs: 1 })),
    )
    .unwrap();
    let mut world = World::new();
    world.polls.insert("a".to_string(), 60);
    let (_, _, outcome) = drive(wf, TaskStates::new(), &mut world);
    outcome.unwrap();
    assert_eq!(world.count("hook p of a in . Running None"), 3);
}

#[test]
fn a_task_whose_time_is_up_is_terminated_and_not_waited_for() {
    let mut wf = Workflow::new("slow", Some(2));
    wf.add_task(
        Task::new(
            "a",
            ExecutionMode::Direct {
                command: "true".to_string(),
                args: vec![],
                env: vec![],
                timeout_nanos: Some(100_000_000),
            },
        )
        .monitor(hook("bad", HookTrigger::OnFailure)),
    )
    .unwrap();
    wf.add_task(Task::new("b", direct("true")).depends_on("a")).unwrap();
    let mut world = World::new();
    world.polls.insert("a".to_string(), 1_000);
    let (_, state, outcome) = drive(wf, TaskStates::new(), &mut world);
    let summary = outcome.unwrap();
    assert_eq!(world.log, vec!["spawn a in .: true [] []", "terminate a"]);
    assert_eq!(summary.failed[0].error, WorkflowError::TaskTimeout("a".to_string()).message());
    assert_eq!(summary.skipped, vec!["b"]);
    assert!(matches!(state.get_status("a"), Some(TaskStatus::Failed { .. })));
    // Two rounds of 50 milliseconds until the time is up, and none after that.
    assert_eq!(summary.duration_nanos, 100_000_000);
}

#[test]
fn a_task_that_ends_in_time_is_not_terminated() {
    let mut wf = Workflow::new("fast", Some(2));
    wf.add_task(Task::new(
        "a",
        ExecutionMode::Direct {
            command: "true".to_string(),
            args: vec![],
            env: vec![],
            timeout_nanos: Some(100_000_001),
        },
    ))
    .unwrap();
    let mut world = World::new();
    world.polls.insert("a".to_string(), 1);
    let (_, _, outcome) = drive(wf, TaskStates::new(), &mut world);
    assert_eq!(outcome.unwrap().succeeded, vec!["a"]);
    assert!(!world.has("terminate a"));
}

#[test]
fn results_are_collected_before_a_task_completes() {
    let mut wf = Workflow::new("collect", Some(1)).with_root_dir("root");
    wf.add_task(
        Task::new("a", direct("true"))
            .workdir(DirPath { text: "w".to_string(), absolute: false })
            .collect()
            .monitor(hook("c", HookTrigger::OnComplete)),
    )
    .unwrap();
    let mut world = World::new();
    let (_, _, outcome) = drive(wf, TaskStates::new(), &mut world);
    assert_eq!(outcome.unwrap().succeeded, vec!["a"]);
    assert_eq!(
        world.log,
        vec![
            "spawn a in <root>w: true [] []",
            "wait a",
            "collect a in <root>w FailTask",
            "hook c of a in <root>w Completed Some(0)",
        ]
    );
}

#[test]
fn a_failure_to_collect_goes_by_the_policy() {
    for (policy, fails) in
        [(CollectFailurePolicy::FailTask, true), (CollectFailurePolicy::WarnOnly, false)]
    {
        let mut wf = Workflow::new("collect", Some(1));
        wf.add_task(
            Task::new("a", direct("true"))
                .collect()
                .collect_failure_policy(policy)
                .monitor(hook("c", HookTrigger::OnComplete))
                .monitor(hook("f", HookTrigger::OnFailure)),
        )
        .unwrap();
        let mut world = World::new();
        world.collect_failures.insert("a".to_string(), "nothing there".to_string());
        let (_, _, outcome) = drive(wf, TaskStates::new(), &mut world);
        let summary = outcome.unwrap();
        if fails {
            assert_eq!(summary.failed[0].error, "nothing there");
            assert!(summary.succeeded.is_empty());
            assert!(world.has("hook f of a in . Failed Some(0)"));
        } else {
            assert!(summary.failed.is_empty());
            assert_eq!(summary.succeeded, vec!["a"]);
            assert!(world.has("hook c of a in . Completed Some(0)"));
        }
    }
}

#[test]
fn a_task_whose_setup_fails_is_not_started() {
    let mut wf = Workflow::new("setup", Some(1));
    wf.add_task(Task::new("a", direct("true")).setup()).unwrap();
    wf.add_task(Task::new("b", direct("true"))).unwrap();
    let mut world = World::new();
    world.setup_failures.insert("a".to_string(), "no seed".to_string());
    let (_, _, outcome) = drive(wf, TaskStates::new(), &mut world);
    let summary = outcome.unwrap();
    assert_eq!(summary.failed[0].error, "no seed");
    assert_eq!(summary.succeeded, vec!["b"]);
    // The place that "a" did not take is free for "b" in the same round.
    assert_eq!(world.log[..2], ["setup a in .", "spawn b in .: true [] []"]);
}

#[test]
fn a_task_that_cannot_be_spawned_fails() {
    let mut wf = Workflow::new("spawn", Some(1));
    wf.add_task(
        Task::new("a", direct("missing"))
            .monitor(hook("s", HookTrigger::OnStart))
            .monitor(hook("f", HookTrigger::OnFailure)),
    )
    .unwrap();
    let mut world = World::new();
    let (_, _, outcome) = drive(wf, TaskStates::new(), &mut world);
    let summary = outcome.unwrap();
    assert_eq!(summary.failed[0].error, "no such command");
    assert_eq!(world.log, vec!["spawn a in .: missing [] []"]);
}

#[test]
fn a_process_gets_arguments_and_environment() {
    let mut wf = Workflow::new("args", Some(1));
    wf.add_task(Task::new(
        "a",
        ExecutionMode::Direct {
            command: "true".to_string(),
            args: vec!["-np".to_string(), "7".to_string()],
            env: vec![("THREADS".to_string(), "1".to_string())],
            timeout_nanos: None,
        },
    ))
    .unwrap();
    let mut world = World::new();
    let (_, _, outcome) = drive(wf, TaskStates::new(), &mut world);
    outcome.unwrap();
    assert_eq!(world.log[0], "spawn a in .: true [\"-np\", \"7\"] [(\"THREADS\", \"1\")]");
}

#[test]
fn a_queued_task_needs_a_queue() {
    let mut wf = Workflow::new("queue", Some(1));
    wf.add_task(Task::new("a", ExecutionMode::Queued)).unwrap();
    let mut world = World::new();
    let (_, _, outcome) = drive(wf, TaskStates::new(), &mut world);
    let summary = outcome.unwrap();
    assert_eq!(summary.failed[0].error, "task 'a': Queued mode requires a QueuedSubmitter");
    assert!(world.log.is_empty());
}

struct Queue;

impl QueuedSubmitter for Queue {
    fn submit(
        &self,
        _workdir: &Location,
        _task_id: &str,
        _log_dir: &Location,
    ) -> Result<Box<dyn ProcessHandle>, WorkflowError> {
        Err(WorkflowError::Io("the test answers for the queue".to_string()))
    }
}

#[test]
fn a_queued_task_is_submitted_with_a_place_for_logs() {
    let mut wf =
        Workflow::new("queue", Some(1)).with_queued_submitter(Submitter { queue: Arc::new(Queue) });
    wf.add_task(
        Task::new("a", ExecutionMode::Queued)
            .workdir(DirPath { text: "w".to_string(), absolute: false }),
    )
    .unwrap();
    let mut world = World::new();
    let (_, _, outcome) = drive(wf, TaskStates::new(), &mut world);
    assert_eq!(outcome.unwrap().succeeded, vec!["a"]);
    assert_eq!(world.log[0], "submit a in w logs w");

    let mut wf = Workflow::new("queue", Some(1))
        .with_queued_submitter(Submitter { queue: Arc::new(Queue) })
        .with_root_dir("root")
        .with_log_dir(DirPath { text: "logs".to_string(), absolute: false });
    wf.add_task(
        Task::new("a", ExecutionMode::Queued)
            .workdir(DirPath { text: "/w".to_string(), absolute: true }),
    )
    .unwrap();
    let mut world = World::new();
    let (_, _, outcome) = drive(wf, TaskStates::new(), &mut world);
    outcome.unwrap();
    assert_eq!(world.log[..2], ["create <root>logs", "submit a in /w logs <root>logs"]);
}

#[test]
fn log_dir_failure_ends_the_run() {
    let mut wf = Workflow::new("logs", Some(1))
        .with_log_dir(DirPath { text: "/logs".to_string(), absolute: true })
        .with_root_dir("root");
    wf.add_task(Task::new("a", direct("true"))).unwrap();
    let mut world = World::new();
    world.log_dir_failure = Some("read only".to_string());
    let (wf, state, outcome) = drive(wf, TaskStates::new(), &mut world);
    assert!(matches!(outcome, Err(WorkflowError::Io(text)) if text == "read only"));
    assert_eq!(world.log, vec!["create /logs"]);
    assert!(state.get_status("a").is_none());
    assert!(wf.successor_map().is_none());
}

#[test]
fn unknown_dependency_ends_the_run() {
    let mut wf = Workflow::new("unknown", Some(1));
    wf.add_task(Task::new("a", direct("true")).depends_on("z")).unwrap();
    let mut world = World::new();
    let (_, _, outcome) = drive(wf, TaskStates::new(), &mut world);
    assert!(matches!(
        outcome,
        Err(WorkflowError::UnknownDependency { task, dependency }) if task == "a" && dependency == "z"
    ));
    assert_eq!(world.saves, 0);
}

#[test]
fn a_cycle_is_an_error() {
    let mut wf = Workflow::new("cycle", Some(1));
    wf.add_task(Task::new("a", direct("true")).depends_on("b")).unwrap();
    wf.add_task(Task::new("b", direct("true")).depends_on("a")).unwrap();
    assert!(matches!(wf.dry_run(), Err(WorkflowError::CycleDetected)));

    let mut wf = Workflow::new("loop", Some(1));
    wf.add_task(Task::new("a", direct("true")).depends_on("a")).unwrap();
    assert!(matches!(wf.dry_run(), Err(WorkflowError::CycleDetected)));
}

#[test]
fn failing_saves_end_the_run_wherever_they_come() {
    for n in 1..6 {
        let mut wf = Workflow::new("save", Some(1));
        wf.add_task(Task::new("a", direct("false"))).unwrap();
        wf.add_task(Task::new("b", direct("true")).depends_on("a")).unwrap();
        let mut world = World::new();
        world.failing_save = Some(n);
        let (_, _, outcome) = drive(wf, TaskStates::new(), &mut world);
        if n <= 4 {
            // At the beginning, after the start, after the end of "a", after the skip of "b".
            assert!(matches!(outcome, Err(WorkflowError::Io(text)) if text == "disk full"));
        } else {
            assert!(outcome.is_ok());
            assert_eq!(world.saves, 4);
        }
    }
}

#[test]
fn the_statuses_in_flight_are_stored() {
    let mut wf = Workflow::new("store", Some(2));
    wf.add_task(Task::new("a", direct("true"))).unwrap();
    wf.add_task(Task::new("b", direct("true")).depends_on("a")).unwrap();
    let mut run = wf.run(TaskStates::new());
    let mut world = World::new();
    world.polls.insert("a".to_string(), 1);
    for _ in 0..10_000 {
        let action = run.action();
        if matches!(action, Action::Sleep { .. }) {
            break;
        }
        let event = world.perform(action, run.states());
        run = run.handle(event, world.now);
    }
    assert_eq!(
        world.stored,
        vec![
            ("a".to_string(), "Running".to_string()),
            ("b".to_string(), "Pending".to_string())
        ]
    );
}

#[test]
fn a_second_run_starts_nothing() {
    let mut wf = Workflow::new("twice", Some(2));
    wf.add_task(Task::new("a", direct("false"))).unwrap();
    wf.add_task(Task::new("b", direct("true"))).unwrap();
    let mut world = World::new();
    let (wf, state, outcome) = drive(wf, TaskStates::new(), &mut world);
    outcome.unwrap();
    let mut world = World::new();
    let (_, state, outcome) = drive(wf, state, &mut world);
    let summary = outcome.unwrap();
    assert!(world.log.is_empty());
    assert_eq!(summary.succeeded, vec!["b"]);
    assert_eq!(summary.failed.len(), 1);
    assert!(state.is_completed("b"));
}

#[test]
fn a_second_run_starts_nothing_where_a_dependent_was_left_out() {
    let mut wf = Workflow::new("twice", Some(2)).with_log_dir(DirPath::new("logs"));
    wf.add_task(Task::new("a", direct("false"))).unwrap();
    wf.add_task(
        Task::new("b", direct("true"))
            .depends_on("a")
            .setup()
            .collect()
            .monitor(hook("s", HookTrigger::OnStart)),
    )
    .unwrap();
    wf.add_task(Task::new("c", direct("true")).depends_on("b")).unwrap();
    let (wf, state, outcome) = drive(wf, TaskStates::new(), &mut World::new());
    assert_eq!(outcome.unwrap().skipped, vec!["b", "c"]);
    assert_eq!(wf.task_count(), 0);
    assert_eq!(wf.dry_run().unwrap(), Vec::<String>::new());
    let before = listed(&state);
    let mut world = World::new();
    let (wf, state, outcome) = drive(wf, state, &mut world);
    let summary = outcome.unwrap();
    assert_eq!(world.log, vec!["create logs"]);
    assert_eq!(listed(&state), before);
    assert_eq!(summary.skipped, vec!["b", "c"]);
    assert_eq!(summary.failed[0].error, "exit code 1");
    assert_eq!(wf.task_count(), 0);
}

#[test]
fn a_second_run_starts_nothing_where_a_task_was_skipped_before() {
    let mut states = TaskStates::new();
    states.set_status(&"b".to_string(), TaskStatus::Skipped);
    let mut wf = Workflow::new("twice", Some(2));
    wf.add_task(Task::new("a", ExecutionMode::Queued)).unwrap();
    wf.add_task(Task::new("b", direct("true")).depends_on("a")).unwrap();
    let (wf, state, outcome) = drive(wf, states, &mut World::new());
    outcome.unwrap();
    let before = listed(&state);
    let mut world = World::new();
    let (_, state, outcome) = drive(wf, state, &mut world);
    assert_eq!(outcome.unwrap().skipped, vec!["b"]);
    assert!(world.log.is_empty());
    assert_eq!(listed(&state), before);
}

#[test]
fn a_task_that_was_not_taken_up_remains() {
    let mut states = TaskStates::new();
    states.mark_completed(&"a".to_string());
    let mut wf = Workflow::new("kept", Some(2));
    wf.add_task(Task::new("a", direct("true"))).unwrap();
    let (mut wf, state, outcome) = drive(wf, states, &mut World::new());
    assert_eq!(outcome.unwrap().succeeded, vec!["a"]);
    assert_eq!(wf.dry_run().unwrap(), vec!["a"]);
    assert!(matches!(
        wf.add_task(Task::new("a", direct("true"))),
        Err(WorkflowError::DuplicateTaskId(id)) if id == "a"
    ));
    let mut world = World::new();
    let (wf, state, outcome) = drive(wf, state, &mut world);
    assert_eq!(outcome.unwrap().succeeded, vec!["a"]);
    assert!(world.log.is_empty());
    assert!(state.is_completed("a"));
    assert_eq!(wf.dry_run().unwrap(), vec!["a"]);
}

#[test]
fn a_task_remains_with_all_that_it_depends_on() {
    let mut states = TaskStates::new();
    states.mark_failed(&"old".to_string(), "exit code 2".to_string());
    states.mark_completed(&"done".to_string());
    states.set_status(&"skipped".to_string(), TaskStatus::Skipped);
    let mut wf = Workflow::new("kept", Some(2));
    wf.add_task(Task::new("far", direct("true")).depends_on("skipped")).unwrap();
    wf.add_task(Task::new("skipped", direct("true")).depends_on("fresh")).unwrap();
    wf.add_task(Task::new("fresh", direct("true")).depends_on("done")).unwrap();
    wf.add_task(Task::new("done", direct("true"))).unwrap();
    wf.add_task(Task::new("blocked", direct("true")).depends_on("old")).unwrap();
    wf.add_task(Task::new("old", direct("true"))).unwrap();
    let mut world = World::new();
    let (wf, state, outcome) = drive(wf, states, &mut world);
    let summary = outcome.unwrap();
    assert_eq!(world.log, vec!["spawn fresh in .: true [] []", "wait fresh"]);
    assert!(matches!(state.get_status("far"), Some(TaskStatus::SkippedDueToDependencyFailure)));
    assert!(matches!(state.get_status("blocked"), Some(TaskStatus::SkippedDueToDependencyFailure)));
    assert_eq!(summary.succeeded.len(), 2);
    // "fresh" was taken up, and "skipped" and "far" go with it.
    let ids: Vec<&str> = wf.tasks().iter().map(|task| task.id.as_str()).collect();
    assert_eq!(ids, vec!["done", "blocked", "old"]);
    let before = listed(&state);
    let mut world = World::new();
    let (wf, state, outcome) = drive(wf, state, &mut world);
    assert!(outcome.is_ok());
    assert!(world.log.is_empty());
    assert_eq!(listed(&state), before);
    assert_eq!(wf.task_count(), 3);
    assert!(wf.successor_map().unwrap().get("fresh").is_none());
}

#[test]
fn a_second_run_can_still_be_interrupted_or_fail_to_save() {
    let first = || {
        let mut wf = Workflow::new("twice", Some(2));
        wf.add_task(Task::new("a", direct("true"))).unwrap();
        drive(wf, TaskStates::new(), &mut World::new())
    };
    let (wf, state, _) = first();
    let mut world = World::new();
    world.interrupt = true;
    let (_, state, outcome) = drive(wf, state, &mut world);
    assert!(matches!(outcome, Err(WorkflowError::Interrupted)));
    assert!(state.is_completed("a"));
    let (wf, state, _) = first();
    let mut world = World::new();
    world.failing_save = Some(1);
    let (_, state, outcome) = drive(wf, state, &mut world);
    assert!(matches!(outcome, Err(WorkflowError::Io(_))));
    assert!(state.is_completed("a"));
}

#[test]
fn a_task_is_left_out_exactly_where_a_dependency_is_not_completed() {
    let mut wf = Workflow::new("mixed", Some(4));
    wf.add_task(Task::new("good", direct("true"))).unwrap();
    wf.add_task(Task::new("bad", direct("false"))).unwrap();
    wf.add_task(Task::new("both", direct("true")).depends_on("good").depends_on("bad")).unwrap();
    wf.add_task(Task::new("fine", direct("true")).depends_on("good")).unwrap();
    wf.add_task(Task::new("far", direct("true")).depends_on("fine").depends_on("both")).unwrap();
    let (_, _, outcome) = drive(wf, TaskStates::new(), &mut World::new());
    let summary = outcome.unwrap();
    assert_eq!(summary.succeeded, vec!["good", "fine"]);
    assert_eq!(summary.skipped, vec!["both", "far"]);
    assert_eq!(summary.failed.len(), 1);
}

#[test]
fn a_task_that_is_marked_as_running_is_not_started() {
    let mut states = TaskStates::new();
    states.mark_running(&"a".to_string());
    let mut wf = Workflow::new("running", Some(2));
    wf.add_task(Task::new("a", direct("true"))).unwrap();
    let mut world = World::new();
    let mut run = wf.run(states);
    for _ in 0..500 {
        let action = run.action();
        let event = world.perform(action, run.states());
        run = run.handle(event, world.now);
    }
    assert!(world.log.is_empty());
    assert!(matches!(run.states().get_status("a"), Some(TaskStatus::Running)));
}

#[test]
fn a_setup_is_asked_for_once() {
    for fails in [false, true] {
        let mut wf = Workflow::new("setup", Some(1));
        wf.add_task(Task::new("a", direct("true")).setup()).unwrap();
        let mut world = World::new();
        if fails {
            world.setup_failures.insert("a".to_string(), "no seed".to_string());
        }
        world.polls.insert("a".to_string(), 3);
        let (_, _, outcome) = drive(wf, TaskStates::new(), &mut world);
        assert_eq!(outcome.unwrap().failed.is_empty(), !fails);
        assert_eq!(world.count("setup a in ."), 1);
    }
}

#[test]
fn a_failed_task_stays_failed_on_resume_and_blocks() {
    let mut states = TaskStates::new();
    states.mark_failed(&"a".to_string(), "exit code 2".to_string());
    states.mark_running(&"b".to_string());
    let mut wf = Workflow::new("resume", Some(2));
    wf.add_task(Task::new("a", direct("true"))).unwrap();
    wf.add_task(Task::new("b", direct("true"))).unwrap();
    wf.add_task(Task::new("c", direct("true")).depends_on("a")).unwrap();
    let mut world = World::new();
    let (_, _, outcome) = drive(wf, states.recover(), &mut world);
    let summary = outcome.unwrap();
    assert_eq!(summary.failed[0].error, "exit code 2");
    assert_eq!(summary.succeeded, vec!["b"]);
    assert_eq!(summary.skipped, vec!["c"]);
    assert_eq!(world.log, vec!["spawn b in .: true [] []", "wait b"]);
}

#[test]
fn a_skipped_dependency_blocks() {
    let mut states = TaskStates::new();
    states.set_status(&"a".to_string(), TaskStatus::Skipped);
    let mut wf = Workflow::new("skipped", Some(2));
    wf.add_task(Task::new("a", direct("true"))).unwrap();
    wf.add_task(Task::new("b", direct("true")).depends_on("a")).unwrap();
    let mut world = World::new();
    let (_, state, outcome) = drive(wf, states, &mut world);
    assert_eq!(outcome.unwrap().skipped, vec!["a", "b"]);
    assert!(matches!(state.get_status("a"), Some(TaskStatus::Skipped)));
    assert!(world.log.is_empty());
}

#[test]
fn an_interrupt_ends_the_run_with_tasks_in_flight() {
    let mut wf = Workflow::new("interrupt", Some(2));
    wf.add_task(Task::new("done", direct("true"))).unwrap();
    wf.add_task(Task::new("long", direct("true"))).unwrap();
    let mut world = World::new();
    world.polls.insert("long".to_string(), 1_000);
    let mut run = wf.run(TaskStates::new());
    let mut naps = 0;
    for _ in 0..10_000 {
        let action = run.action();
        match action {
            Action::Finish => break,
            Action::Sleep { .. } => {
                naps += 1;
                if naps == 3 {
                    world.interrupt = true;
                }
            }
            _ => {}
        }
        let event = world.perform(action, run.states());
        run = run.handle(event, world.now);
    }
    let (_, state, outcome) = run.into_parts();
    assert!(matches!(outcome, Some(Err(WorkflowError::Interrupted))));
    assert!(state.is_completed("done"));
    assert!(matches!(state.get_status("long"), Some(TaskStatus::Pending)));
    assert!(world.has("terminate long"));
    assert!(!world.has("terminate done"));
    assert_eq!(world.stored, listed(&state));
}

#[test]
fn events_that_do_not_answer_the_action_change_nothing() {
    let mut wf = Workflow::new("stray", Some(1));
    wf.add_task(Task::new("a", direct("true"))).unwrap();
    let run = wf.run(TaskStates::new());
    let run = run.handle(Event::Running { yes: true }, 0);
    assert!(matches!(run.action(), Action::Proceed));
    let run = run.handle(Event::Done, 0);
    assert!(matches!(run.action(), Action::Save));
    let run = run.handle(Event::Exited { code: Some(0) }, 0);
    assert!(matches!(run.action(), Action::Save));
    let (_, _, outcome) = run.into_parts();
    assert!(outcome.is_none());
}

#[test]
fn an_empty_workflow_ends_at_once() {
    let mut world = World::new();
    let (_, _, outcome) = drive(Workflow::new("empty", None), TaskStates::new(), &mut world);
    let summary = outcome.unwrap();
    assert!(summary.succeeded.is_empty() && summary.failed.is_empty() && summary.skipped.is_empty());
    assert_eq!(summary.duration_nanos, 0);
}

#[test]
fn a_phase_is_told_to_hooks() {
    assert_ne!(TaskPhase::Running, TaskPhase::Failed);
    let mut wf = Workflow::new("phase", Some(1));
    wf.add_task(Task::new("a", direct("true")).monitor(hook("s", HookTrigger::OnStart))).unwrap();
    let mut run = wf.run(TaskStates::new());
    let mut world = World::new();
    for _ in 0..10_000 {
        let action = run.action();
        if let Action::FireHooks { batch } = &action {
            assert_eq!(batch.context.phase, TaskPhase::Running);
            assert_eq!(batch.context.exit_code, None);
            assert_eq!(batch.hooks[0].command, "notify");
            return;
        }
        let event = world.perform(action, run.states());
        run = run.handle(event, world.now);
    }
    panic!("no hook was run");
}
