//! The seams at which a program joins processes and queues to a workflow.

use crate::error::WorkflowError;
use crate::path::Location;
use std::sync::Arc;
use vstd::prelude::*;

verus! {

/// A process, or a job of a queue, that has been started for a task.
pub trait ProcessHandle {
    /// Whether it is still running.
    fn is_running(&mut self) -> bool;

    /// Ends it.
    fn terminate(&mut self) -> Result<(), WorkflowError>;

    /// Waits for its end and gives the exit code, if it left one.
    fn wait(&mut self) -> Result<Option<i32>, WorkflowError>;
}

/// A queue that takes tasks.
pub trait QueuedSubmitter {
    /// Hands a task to the queue.
    fn submit(&self, workdir: &Location, task_id: &str, log_dir: &Location) -> Result<
        Box<dyn ProcessHandle>,
        WorkflowError,
    >;
}

/// A shared queue.
pub struct Submitter {
    pub queue: Arc<dyn QueuedSubmitter>,
}

} // verus!
