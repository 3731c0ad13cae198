//! Tasks and the states they move through.
use crate::errors::InterprogError;
use vstd::prelude::*;

verus! {

/// The state of a task.
///
/// A task starts out pending, runs either as a spinner (no known end) or iteratively
/// (`done` units out of `total`), and ends finished or in error.
#[derive(Debug, PartialEq, Hash, Eq, Ord, PartialOrd, Clone)]
#[allow(inconsistent_fields)]
pub enum Status {
    /// Queued and not started. With a total the task will be iterative once started,
    /// without one it will be a spinner.
    Pending { total: Option<usize> },
    /// Ended in failure, for the reason given.
    Error { message: String },
    /// Ended in success.
    Finished,
    /// Started, with no known end.
    Running,
    /// Started, with `done` units out of `total` completed.
    InProgress { done: usize, total: usize },
}

/// A named unit of work and its current state.
#[derive(Debug, PartialEq, Hash, Eq, Ord, PartialOrd, Clone)]
pub struct Task {
    /// The name under which the task is registered and reported.
    pub name: String,
    /// The current state of the task.
    pub progress: Status,
}

/// The mathematical value of a [`Status`].
#[verifier::ext_equal]
#[allow(inconsistent_fields)]
pub enum StatusView {
    Pending { total: Option<nat> },
    Error { message: Seq<char> },
    Finished,
    Running,
    InProgress { done: nat, total: nat },
}

/// The mathematical value of a [`Task`].
#[verifier::ext_equal]
pub struct TaskView {
    pub name: Seq<char>,
    pub progress: StatusView,
}

impl View for Status {
    type V = StatusView;

    open spec fn view(&self) -> StatusView {
        match *self {
            Status::Pending { total: None } => StatusView::Pending { total: None },
            Status::Pending { total: Some(t) } => StatusView::Pending { total: Some(t as nat) },
            Status::Error { message } => StatusView::Error { message: message@ },
            Status::Finished => StatusView::Finished,
            Status::Running => StatusView::Running,
            Status::InProgress { done, total } => StatusView::InProgress {
                done: done as nat,
                total: total as nat,
            },
        }
    }
}

impl View for Task {
    type V = TaskView;

    open spec fn view(&self) -> TaskView {
        TaskView { name: self.name@, progress: self.progress@ }
    }
}

impl StatusView {
    /// Finished and Error are final: no operation leads out of them, and the manager
    /// drops a task that reaches either.
    pub open spec fn is_terminal(self) -> bool {
        self is Finished || self is Error
    }

    /// The state that `start` leads to, or the reason why the task cannot be started.
    ///
    /// Only a pending task can be started: it becomes a spinner if it has no total,
    /// and iterative with nothing done if it has one.
    pub open spec fn started(self) -> Result<StatusView, InterprogError> {
        match self {
            StatusView::Pending { total: None } => Ok(StatusView::Running),
            StatusView::Pending { total: Some(t) } => Ok(StatusView::InProgress { done: 0, total: t }),
            StatusView::Running | StatusView::InProgress { .. } => Err(
                InterprogError::TaskAlreadyStarted,
            ),
            StatusView::Finished | StatusView::Error { .. } => Err(
                InterprogError::TaskAlreadyFinished,
            ),
        }
    }

    /// The state that ending the task leads to, `last` being Finished or an Error, or the
    /// reason why the task cannot be ended: it has ended already.
    pub open spec fn ended(self, last: StatusView) -> Result<StatusView, InterprogError> {
        if self.is_terminal() {
            Err(InterprogError::TaskAlreadyFinished)
        } else {
            Ok(last)
        }
    }

    /// The state that an increment by `by` leads to, or the reason why the task cannot
    /// be incremented.
    ///
    /// The first increment of a pending task with a total starts it, with one unit done.
    /// A running iterative task advances by `by` as long as `done < total` held before;
    /// nothing bounds `done` afterwards.
    pub open spec fn incremented(self, by: nat) -> Result<StatusView, InterprogError> {
        match self {
            StatusView::Pending { total: Some(t) } => Ok(StatusView::InProgress { done: 1, total: t }),
            StatusView::InProgress { done, total } => if done < total {
                Ok(StatusView::InProgress { done: done + by, total })
            } else {
                Err(InterprogError::TaskAlreadyFinished)
            },
            StatusView::Running | StatusView::Pending { total: None } => Err(
                InterprogError::InvalidTaskType,
            ),
            StatusView::Finished | StatusView::Error { .. } => Err(
                InterprogError::TaskAlreadyFinished,
            ),
        }
    }
}

impl Status {
    /// Whether the status is Finished or Error.
    pub fn is_terminal(&self) -> (terminal: bool)
        ensures
            terminal == self@.is_terminal(),
    {
        match self {
            Status::Finished | Status::Error { message: _ } => true,
            _ => false,
        }
    }
}

impl Task {
    /// A pending task without a total.
    pub fn new(name: &str) -> (task: Task)
        ensures
            task@ == (TaskView { name: name@, progress: StatusView::Pending { total: None } }),
    {
        Task { name: name.to_owned(), progress: Status::Pending { total: None } }
    }

    /// The same task, pending with the given total.
    pub fn total(self, new_total: usize) -> (task: Task)
        ensures
            task@ == (TaskView {
                name: self@.name,
                progress: StatusView::Pending { total: Some(new_total as nat) },
            }),
    {
        let mut task = self;
        task.progress = Status::Pending { total: Some(new_total) };
        task
    }

    /// The same task under another name.
    pub fn name(self, new_name: &str) -> (task: Task)
        ensures
            task@ == (TaskView { name: new_name@, progress: self@.progress }),
    {
        let mut task = self;
        task.name = new_name.to_owned();
        task
    }
}

impl From<String> for Task {
    /// A pending task without a total, under the given name.
    fn from(name: String) -> (task: Task) {
        Task { name, progress: Status::Pending { total: None } }
    }
}

impl vstd::std_specs::convert::FromSpecImpl<String> for Task {
    open spec fn obeys_from_spec() -> bool {
        true
    }

    open spec fn from_spec(name: String) -> Task {
        Task { name, progress: Status::Pending { total: None } }
    }
}

} // verus!
