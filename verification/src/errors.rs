//! The errors that the task manager reports.
use vstd::prelude::*;

verus! {

/// What can go wrong when a task is registered, addressed or moved to another state.
///
/// Every error is local and recoverable: the operation that reports it has changed nothing.
#[derive(Debug, Clone, Copy, PartialEq, Eq, Hash, Structural)]
pub enum InterprogError {
    /// `start` was asked of a task that is no longer pending.
    TaskAlreadyStarted,
    /// The name, given or implied, belongs to no active task.
    NonexistentTask,
    /// A task was registered under a name that an active task already has.
    TaskAlreadyExists,
    /// An iterative operation was asked of a task without a known total.
    InvalidTaskType,
    /// The task is in a final state, or has already done all it had to do.
    TaskAlreadyFinished,
}

impl InterprogError {
    /// The text that describes this error to a person.
    pub open spec fn message_text(self) -> Seq<char> {
        match self {
            InterprogError::TaskAlreadyStarted => "Task has already been started/is running"@,
            InterprogError::NonexistentTask => "The requested task does not exist"@,
            InterprogError::TaskAlreadyExists => "Another task of the same name already exists"@,
            InterprogError::InvalidTaskType => "The task is the wrong type for the requested operation"@,
            InterprogError::TaskAlreadyFinished => "Task is already done"@,
        }
    }

    /// Describes this error to a person.
    pub fn message(&self) -> (text: String)
        ensures
            text@ == self.message_text(),
    {
        match self {
            InterprogError::TaskAlreadyStarted => "Task has already been started/is running".to_owned(),
            InterprogError::NonexistentTask => "The requested task does not exist".to_owned(),
            InterprogError::TaskAlreadyExists => "Another task of the same name already exists".to_owned(),
            InterprogError::InvalidTaskType => "The task is the wrong type for the requested operation".to_owned(),
            InterprogError::TaskAlreadyFinished => "Task is already done".to_owned(),
        }
    }
}

} // verus!
