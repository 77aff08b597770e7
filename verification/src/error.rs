//! What can go wrong with a workflow.

use crate::text::Text;
use vstd::prelude::*;
use vstd::string::*;

verus! {

/// An error of a workflow.
#[derive(Debug)]
pub enum WorkflowError {
    /// A setting is out of range.
    InvalidConfig(String),
    /// A task of that id is already there.
    DuplicateTaskId(String),
    /// A task depends on an id that no task has.
    UnknownDependency { task: String, dependency: String },
    /// The dependencies form a cycle.
    CycleDetected,
    /// A task ran longer than it may.
    TaskTimeout(String),
    /// The run was interrupted from outside.
    Interrupted,
    /// Outside work failed; the text says how.
    Io(String),
}

/// The content of a [`WorkflowError`].
pub enum WorkflowErrorView {
    InvalidConfig(Text),
    DuplicateTaskId(Text),
    UnknownDependency { task: Text, dependency: Text },
    CycleDetected,
    TaskTimeout(Text),
    Interrupted,
    Io(Text),
}

impl View for WorkflowError {
    type V = WorkflowErrorView;

    open spec fn view(&self) -> WorkflowErrorView {
        match *self {
            WorkflowError::InvalidConfig(text) => WorkflowErrorView::InvalidConfig(text@),
            WorkflowError::DuplicateTaskId(id) => WorkflowErrorView::DuplicateTaskId(id@),
            WorkflowError::UnknownDependency { task, dependency } =>
                WorkflowErrorView::UnknownDependency { task: task@, dependency: dependency@ },
            WorkflowError::CycleDetected => WorkflowErrorView::CycleDetected,
            WorkflowError::TaskTimeout(id) => WorkflowErrorView::TaskTimeout(id@),
            WorkflowError::Interrupted => WorkflowErrorView::Interrupted,
            WorkflowError::Io(text) => WorkflowErrorView::Io(text@),
        }
    }
}

impl WorkflowErrorView {
    /// The text that describes the error to a reader.
    pub open spec fn message(self) -> Text {
        match self {
            WorkflowErrorView::InvalidConfig(text) => "invalid configuration: "@ + text,
            WorkflowErrorView::DuplicateTaskId(id) => "duplicate task id '"@ + id + "'"@,
            WorkflowErrorView::UnknownDependency { task, dependency } => "task '"@ + task
                + "' depends on unknown task '"@ + dependency + "'"@,
            WorkflowErrorView::CycleDetected => "dependency cycle detected"@,
            WorkflowErrorView::TaskTimeout(id) => "task '"@ + id + "' timed out"@,
            WorkflowErrorView::Interrupted => "workflow interrupted"@,
            WorkflowErrorView::Io(text) => text,
        }
    }
}

/// Two timeouts have different messages where they are of different tasks, and the message
/// of outside work that failed is the text that was told.
pub proof fn law_messages_tell(a: Text, b: Text)
    ensures
        WorkflowErrorView::TaskTimeout(a).message() == "task '"@ + a + "' timed out"@,
        WorkflowErrorView::TaskTimeout(a).message() == WorkflowErrorView::TaskTimeout(b).message()
            ==> a == b,
        WorkflowErrorView::Io(a).message() == a,
{
    let x = WorkflowErrorView::TaskTimeout(a).message();
    let y = WorkflowErrorView::TaskTimeout(b).message();
    let head = "task '"@.len() as int;
    let tail = "' timed out"@.len() as int;
    assert(x.len() == head + a.len() + tail);
    assert(y.len() == head + b.len() + tail);
    if x == y {
        assert(a =~= x.subrange(head, head + a.len()));
        assert(b =~= y.subrange(head, head + b.len()));
    }
}

impl WorkflowError {
    /// Describes the error to a reader.
    pub fn message(&self) -> (r: String)
        ensures
            r@ == self@.message(),
            match *self {
                WorkflowError::InvalidConfig(text) => r@ == "invalid configuration: "@ + text@,
                WorkflowError::DuplicateTaskId(id) => r@ == "duplicate task id '"@ + id@ + "'"@,
                WorkflowError::UnknownDependency { task, dependency } => r@ == "task '"@ + task@
                    + "' depends on unknown task '"@ + dependency@ + "'"@,
                WorkflowError::CycleDetected => r@ == "dependency cycle detected"@,
                WorkflowError::TaskTimeout(id) => r@ == "task '"@ + id@ + "' timed out"@,
                WorkflowError::Interrupted => r@ == "workflow interrupted"@,
                WorkflowError::Io(text) => r@ == text@,
            },
    {
        match self {
            WorkflowError::InvalidConfig(text) => String::from_str("invalid configuration: ").concat(
                text.as_str(),
            ),
            WorkflowError::DuplicateTaskId(id) => String::from_str("duplicate task id '").concat(
                id.as_str(),
            ).concat("'"),
            WorkflowError::UnknownDependency { task, dependency } => String::from_str(
                "task '",
            ).concat(task.as_str()).concat("' depends on unknown task '").concat(
                dependency.as_str(),
            ).concat("'"),
            WorkflowError::CycleDetected => String::from_str("dependency cycle detected"),
            WorkflowError::TaskTimeout(id) => String::from_str("task '").concat(
                id.as_str(),
            ).concat("' timed out"),
            WorkflowError::Interrupted => String::from_str("workflow interrupted"),
            WorkflowError::Io(text) => text.clone(),
        }
    }
}

} // verus!
