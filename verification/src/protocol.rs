//! What a run asks of the program around it, and what it is told in return.

use crate::error::{WorkflowError, WorkflowErrorView};
use crate::monitoring::{HookBatch, HookBatchView};
use crate::path::{Location, LocationView};
use crate::task::{text_pairs, CollectFailurePolicy};
use crate::text::{texts, Text};
use vstd::prelude::*;

verus! {

/// What is to be done before the run can go on.
#[derive(Debug)]
pub enum Action {
    /// Nothing; answer `Done`.
    Proceed,
    /// Create the directory for log files. Answer `Done` or `Failed`.
    CreateLogDir { dir: Location },
    /// Store the statuses. Answer `Done` or `Failed`.
    Save,
    /// Find out whether an interrupt has been asked for. Answer `Interrupted`.
    CheckInterrupt,
    /// Terminate the processes of these tasks. Answer `Done`.
    TerminateAll { ids: Vec<String> },
    /// Terminate the process of a task. Answer `Done`.
    Terminate { id: String },
    /// Find out whether the process of a task is still running. Answer `Running`.
    IsRunning { id: String },
    /// Wait for the process of a task. Answer `Exited` or `Failed`.
    Wait { id: String },
    /// Collect the results of a task. Answer `Done` or `StepFailed`.
    RunCollect { id: String, workdir: Location, policy: CollectFailurePolicy },
    /// Run hooks. Answer `Done`, whatever comes of them.
    FireHooks { batch: HookBatch },
    /// Take the step before the start of a task. Answer `Done` or `StepFailed`.
    RunSetup { id: String, workdir: Location },
    /// Start the process of a task. Answer `Done` or `Failed`.
    Spawn {
        id: String,
        workdir: Location,
        command: String,
        args: Vec<String>,
        env: Vec<(String, String)>,
    },
    /// Hand a task to the queue. Answer `Done` or `Failed`.
    Submit { id: String, workdir: Location, log_dir: Location },
    /// Let time pass. Answer `Done`.
    Sleep { millis: u64 },
    /// The run is over.
    Finish,
}

/// The content of an [`Action`].
#[verifier::ext_equal]
pub enum ActionView {
    Proceed,
    CreateLogDir { dir: LocationView },
    Save,
    CheckInterrupt,
    TerminateAll { ids: Seq<Text> },
    Terminate { id: Text },
    IsRunning { id: Text },
    Wait { id: Text },
    RunCollect { id: Text, workdir: LocationView, policy: CollectFailurePolicy },
    FireHooks { batch: HookBatchView },
    RunSetup { id: Text, workdir: LocationView },
    Spawn {
        id: Text,
        workdir: LocationView,
        command: Text,
        args: Seq<Text>,
        env: Seq<(Text, Text)>,
    },
    Submit { id: Text, workdir: LocationView, log_dir: LocationView },
    Sleep { millis: u64 },
    Finish,
}

impl View for Action {
    type V = ActionView;

    open spec fn view(&self) -> ActionView {
        match *self {
            Action::Proceed => ActionView::Proceed,
            Action::CreateLogDir { dir } => ActionView::CreateLogDir { dir: dir@ },
            Action::Save => ActionView::Save,
            Action::CheckInterrupt => ActionView::CheckInterrupt,
            Action::TerminateAll { ids } => ActionView::TerminateAll { ids: texts(ids@) },
            Action::Terminate { id } => ActionView::Terminate { id: id@ },
            Action::IsRunning { id } => ActionView::IsRunning { id: id@ },
            Action::Wait { id } => ActionView::Wait { id: id@ },
            Action::RunCollect { id, workdir, policy } => ActionView::RunCollect {
                id: id@,
                workdir: workdir@,
                policy,
            },
            Action::FireHooks { batch } => ActionView::FireHooks { batch: batch@ },
            Action::RunSetup { id, workdir } => ActionView::RunSetup { id: id@, workdir: workdir@ },
            Action::Spawn { id, workdir, command, args, env } => ActionView::Spawn {
                id: id@,
                workdir: workdir@,
                command: command@,
                args: texts(args@),
                env: text_pairs(env@),
            },
            Action::Submit { id, workdir, log_dir } => ActionView::Submit {
                id: id@,
                workdir: workdir@,
                log_dir: log_dir@,
            },
            Action::Sleep { millis } => ActionView::Sleep { millis },
            Action::Finish => ActionView::Finish,
        }
    }
}

/// What has come of an action.
#[derive(Debug)]
pub enum Event {
    /// It is done.
    Done,
    /// It could not be done.
    Failed { error: WorkflowError },
    /// The code of a step of a task has failed; the text says how.
    StepFailed { text: String },
    /// Whether an interrupt has been asked for.
    Interrupted { yes: bool },
    /// Whether the process is still running.
    Running { yes: bool },
    /// The process has ended, with the exit code that it left, if any.
    Exited { code: Option<i32> },
}

/// The content of an [`Event`].
pub enum EventView {
    Done,
    Failed { error: WorkflowErrorView },
    StepFailed { text: Text },
    Interrupted { yes: bool },
    Running { yes: bool },
    Exited { code: Option<i32> },
}

impl View for Event {
    type V = EventView;

    open spec fn view(&self) -> EventView {
        match *self {
            Event::Done => EventView::Done,
            Event::Failed { error } => EventView::Failed { error: error@ },
            Event::StepFailed { text } => EventView::StepFailed { text: text@ },
            Event::Interrupted { yes } => EventView::Interrupted { yes },
            Event::Running { yes } => EventView::Running { yes },
            Event::Exited { code } => EventView::Exited { code },
        }
    }
}

} // verus!
