//! The task manager: the active tasks, the queue that decides which of them is current,
//! and the operations that move a task from state to state.
//!
//! Most operations come in two forms: `..._task` acts on the task of a given name, the
//! short form on the current task, which is the oldest one still queued and active.
//!
//! The manager is synchronous and not thread-safe. It writes nothing itself: an operation
//! that changes the state of a task returns the snapshot line for the caller to emit.
use crate::errors::InterprogError;
use crate::model::{lemma_stale_prefix, ManagerView};
use crate::task::{Status, Task, TaskView};
use crate::wire::{array, task_text};
use std::collections::VecDeque;
use vstd::prelude::*;

verus! {

/// The views of a sequence of names.
spec fn names_of(names: Seq<String>) -> Seq<Seq<char>> {
    Seq::new(names.len(), |i: int| names[i]@)
}

/// The views of a sequence of tasks.
spec fn tasks_of(tasks: Seq<Task>) -> Seq<TaskView> {
    Seq::new(tasks.len(), |i: int| tasks[i]@)
}

/// A synchronous, non-thread-safe manager of named tasks.
pub struct TaskManager {
    /// The names under which the active tasks were registered, oldest first.
    keys: Vec<String>,
    /// The active tasks, each at the index of its name in `keys`.
    tasks: Vec<Task>,
    /// Names in the order of their registration; may hold names of tasks that have left.
    task_list: VecDeque<String>,
    /// Whether snapshots are suppressed.
    silent: bool,
}

impl View for TaskManager {
    type V = ManagerView;

    closed spec fn view(&self) -> ManagerView {
        ManagerView {
            keys: names_of(self.keys@),
            tasks: tasks_of(self.tasks@),
            queue: names_of(self.task_list@),
            silent: self.silent,
        }
    }
}

impl TaskManager {
    /// The invariant that every operation expects and keeps.
    pub open spec fn wf(&self) -> bool {
        self@.wf()
    }

    /// A manager without tasks that emits snapshots.
    pub fn new() -> (manager: TaskManager)
        ensures
            manager@ == ManagerView::empty(false),
            manager.wf(),
    {
        let manager = TaskManager {
            keys: Vec::new(),
            tasks: Vec::new(),
            task_list: VecDeque::new(),
            silent: false,
        };
        assert(manager@ =~= ManagerView::empty(false));
        manager
    }

    /// A manager without tasks that emits nothing.
    pub fn new_silent() -> (manager: TaskManager)
        ensures
            manager@ == ManagerView::empty(true),
            manager.wf(),
    {
        let manager = TaskManager {
            keys: Vec::new(),
            tasks: Vec::new(),
            task_list: VecDeque::new(),
            silent: true,
        };
        assert(manager@ =~= ManagerView::empty(true));
        manager
    }

    /// Where the task registered under `name` stands, if there is one.
    fn position(&self, name: &String) -> (at: Option<usize>)
        ensures
            match at {
                Some(i) => i < self@.keys.len() && self@.keys[i as int] == name@,
                None => !self@.is_active(name@),
            },
    {
        let mut i: usize = 0;
        while i < self.keys.len()
            invariant
                i <= self.keys.len(),
                forall|j: int| 0 <= j < i ==> self@.keys[j] != name@,
            decreases self.keys.len() - i,
        {
            if self.keys[i] == *name {
                return Some(i);
            }
            i += 1;
        }
        None
    }

    /// The name of the current task: the first name in the queue that has an active task.
    ///
    /// Stale names met on the way are dropped from the queue. Fails with
    /// `NonexistentTask` exactly when no task is active.
    pub fn get_first_task(&mut self) -> (r: Result<String, InterprogError>)
        requires
            old(self).wf(),
        ensures
            final(self).wf(),
            final(self)@ == old(self)@.pruned(),
            match old(self)@.current() {
                Some(name) => r matches Ok(found) && found@ == name,
                None => r matches Err(e) && e == InterprogError::NonexistentTask,
            },
            r is Ok <==> old(self)@.keys.len() > 0,
    {
        let ghost before = self@;
        proof {
            before.lemma_current();
            before.lemma_pruned();
        }
        while self.task_list.len() > 0
            invariant
                before == old(self)@,
                before.pruned().wf(),
                before.current() is Some <==> before.keys.len() > 0,
                self@.pruned() == before.pruned(),
                self@.current() == before.current(),
            decreases self.task_list.len(),
        {
            let ghost here = self@;
            if self.position(&self.task_list[0]).is_some() {
                let found = self.task_list[0].clone();
                proof {
                    assert(here.queue.skip(0) =~= here.queue);
                }
                return Ok(found);
            }
            self.task_list.pop_front();
            proof {
                assert(self@.queue =~= here.queue.drop_first());
                assert(!here.keys.contains(here.queue[0]));
                assert(here.stale() == 1 + self@.stale());
                lemma_stale_prefix(self@.queue, self@.keys);
                assert(self@.queue.skip(self@.stale() as int) =~= here.queue.skip(
                    here.stale() as int,
                ));
            }
        }
        proof {
            assert(self@.queue.skip(0) =~= self@.queue);
        }
        Err(InterprogError::NonexistentTask)
    }

    /// Registers a task under its name, as the youngest of the active tasks.
    ///
    /// Fails with `TaskAlreadyExists` exactly when the name is active. Emits nothing.
    pub fn add_task(&mut self, task: Task) -> (r: Result<(), InterprogError>)
        requires
            old(self).wf(),
        ensures
            final(self).wf(),
            match old(self)@.add_task(task@) {
                Ok(after) => r is Ok && final(self)@ == after,
                Err(e) => r == Err::<(), InterprogError>(e) && final(self)@ == old(self)@,
            },
    {
        let name = task.name.clone();
        if self.position(&name).is_some() {
            return Err(InterprogError::TaskAlreadyExists);
        }
        proof {
            self@.lemma_add_task(task@);
        }
        let ghost before = self@;
        self.keys.push(name.clone());
        self.tasks.push(task);
        self.task_list.push_back(name);
        assert(self@.keys =~= before.keys.push(task@.name));
        assert(self@.tasks =~= before.tasks.push(task@));
        assert(self@.queue =~= before.queue.push(task@.name));
        Ok(())
    }

    /// The task registered under `task_name`, to read or to change.
    ///
    /// Fails with `NonexistentTask` exactly when the name is not active. The task stays
    /// registered under `task_name` whatever the caller writes into it.
    pub fn get_task(&mut self, task_name: &str) -> (r: Result<&mut Task, InterprogError>)
        requires
            old(self).wf(),
        ensures
            final(self).wf(),
            match r {
                Ok(task) => {
                    &&& old(self)@.is_active(task_name@)
                    &&& task@ == old(self)@.task(task_name@)
                    &&& final(self)@ == old(self)@.with_task(task_name@, final(task)@)
                },
                Err(e) => {
                    &&& e == InterprogError::NonexistentTask
                    &&& !old(self)@.is_active(task_name@)
                    &&& final(self)@ == old(self)@
                },
            },
    {
        let name = task_name.to_owned();
        match self.position(&name) {
            Some(i) => {
                proof {
                    self@.lemma_slot_of_key(i as int);
                }
                Ok(&mut self.tasks[i])
            },
            None => Err(InterprogError::NonexistentTask),
        }
    }

    /// What an operation that changed the state of a task emits now: nothing if the
    /// manager is silent, else one line with the JSON array of the active tasks, oldest
    /// first.
    pub fn snapshot(&self) -> (line: Option<String>)
        ensures
            line.deep_view() == self@.snapshot(),
    {
        if self.silent {
            return None;
        }
        let mut items: Vec<String> = Vec::new();
        let mut i: usize = 0;
        while i < self.tasks.len()
            invariant
                i <= self.tasks.len(),
                items.deep_view() == self@.tasks.take(i as int).map_values(
                    |t: TaskView| task_text(t),
                ),
            decreases self.tasks.len() - i,
        {
            let ghost done = items.deep_view();
            items.push(self.tasks[i].to_json());
            proof {
                let texts = |t: TaskView| task_text(t);
                assert(items.deep_view() =~= done.push(task_text(self@.tasks[i as int])));
                assert(self@.tasks.take(i + 1).map_values(texts) =~= self@.tasks.take(
                    i as int,
                ).map_values(texts).push(task_text(self@.tasks[i as int])));
            }
            i += 1;
        }
        assert(self@.tasks.take(i as int) =~= self@.tasks);
        Some(array(&items))
    }

    /// Starts the task registered under `task_name`.
    ///
    /// A pending task without a total becomes a spinner, one with a total becomes
    /// iterative with nothing done. Fails with `NonexistentTask` if the name is not
    /// active, with `TaskAlreadyStarted` if the task is running already and with
    /// `TaskAlreadyFinished` if it has ended; nothing changes then. On success returns
    /// the snapshot to emit.
    pub fn start_task(&mut self, task_name: &str) -> (r: Result<Option<String>, InterprogError>)
        requires
            old(self).wf(),
        ensures
            final(self).wf(),
            match old(self)@.start_task(task_name@) {
                Ok(after) => {
                    &&& final(self)@ == after
                    &&& r matches Ok(line) && line.deep_view() == after.snapshot()
                },
                Err(e) => {
                    &&& final(self)@ == old(self)@
                    &&& r matches Err(x) && x == e
                },
            },
    {
        let task = match self.get_task(task_name) {
            Ok(task) => task,
            Err(e) => { return Err(e); },
        };
        proof {
            old(self)@.lemma_with_same_task(task_name@);
        }
        match &task.progress {
            Status::Pending { total: Some(total) } => {
                task.progress = Status::InProgress { done: 0, total: *total };
            },
            Status::Pending { total: None } => {
                task.progress = Status::Running;
            },
            Status::Running | Status::InProgress { done: _, total: _ } => {
                return Err(InterprogError::TaskAlreadyStarted);
            },
            Status::Finished | Status::Error { message: _ } => {
                return Err(InterprogError::TaskAlreadyFinished);
            },
        }
        Ok(self.snapshot())
    }

    /// Advances the task registered under `task_name` by `by` units.
    ///
    /// The first increment of a pending task with a total starts it, with one unit done.
    /// An iterative task in progress advances by `by` if `done < total`; `done` may then
    /// exceed `total`. Fails with `NonexistentTask` if the name is not active, with
    /// `InvalidTaskType` for a task without a total, and with `TaskAlreadyFinished` once
    /// `done >= total` or the task has ended; nothing changes then. On success returns
    /// the snapshot to emit.
    ///
    /// Where the task advances, `done + by` has to fit in a `usize`.
    pub fn increment_task(&mut self, task_name: &str, by: usize) -> (r: Result<
        Option<String>,
        InterprogError,
    >)
        requires
            old(self).wf(),
            old(self)@.increment_fits(task_name@, by as nat),
        ensures
            final(self).wf(),
            match old(self)@.increment_task(task_name@, by as nat) {
                Ok(after) => {
                    &&& final(self)@ == after
                    &&& r matches Ok(line) && line.deep_view() == after.snapshot()
                },
                Err(e) => {
                    &&& final(self)@ == old(self)@
                    &&& r matches Err(x) && x == e
                },
            },
    {
        let task = match self.get_task(task_name) {
            Ok(task) => task,
            Err(e) => { return Err(e); },
        };
        proof {
            old(self)@.lemma_with_same_task(task_name@);
        }
        match &task.progress {
            Status::Pending { total: Some(total) } => {
                task.progress = Status::InProgress { done: 1, total: *total };
            },
            Status::InProgress { done, total } => {
                if *done >= *total {
                    return Err(InterprogError::TaskAlreadyFinished);
                }
                task.progress = Status::InProgress { done: *done + by, total: *total };
            },
            Status::Running | Status::Pending { total: None } => {
                return Err(InterprogError::InvalidTaskType);
            },
            Status::Finished | Status::Error { message: _ } => {
                return Err(InterprogError::TaskAlreadyFinished);
            },
        }
        Ok(self.snapshot())
    }

    /// Takes the task registered under `task_name`, if there is one, out of the active
    /// set. The queue keeps the name.
    fn remove_entry(&mut self, task_name: &str)
        requires
            old(self).wf(),
        ensures
            final(self).wf(),
            final(self)@ == if old(self)@.is_active(task_name@) {
                old(self)@.without(task_name@)
            } else {
                old(self)@
            },
    {
        let name = task_name.to_owned();
        if let Some(i) = self.position(&name) {
            proof {
                self@.lemma_slot_of_key(i as int);
                self@.lemma_without(task_name@);
            }
            let ghost before = self@;
            self.keys.remove(i);
            self.tasks.remove(i);
            assert(self@.keys =~= before.keys.remove(i as int));
            assert(self@.tasks =~= before.tasks.remove(i as int));
        }
    }

    /// Ends the task registered under `task_name` in success.
    ///
    /// The task leaves the active set before the snapshot is taken, so the snapshot
    /// returned lists the remaining tasks only. Fails with `NonexistentTask` if the name
    /// is not active, and with `TaskAlreadyFinished` if a task that has ended was
    /// registered or written under the name; nothing changes then.
    pub fn finish_task(&mut self, task_name: &str) -> (r: Result<Option<String>, InterprogError>)
        requires
            old(self).wf(),
        ensures
            final(self).wf(),
            match old(self)@.finish_task(task_name@) {
                Ok(after) => {
                    &&& final(self)@ == after
                    &&& r matches Ok(line) && line.deep_view() == after.snapshot()
                },
                Err(e) => {
                    &&& final(self)@ == old(self)@
                    &&& r matches Err(x) && x == e
                },
            },
    {
        let task = match self.get_task(task_name) {
            Ok(task) => task,
            Err(e) => { return Err(e); },
        };
        if task.progress.is_terminal() {
            proof {
                old(self)@.lemma_with_same_task(task_name@);
            }
            return Err(InterprogError::TaskAlreadyFinished);
        }
        task.progress = Status::Finished;
        proof {
            old(self)@.lemma_with_task_without(task_name@, task@);
        }
        self.remove_entry(task_name);
        Ok(self.snapshot())
    }

    /// Ends the task registered under `task_name` in failure, for the reason given.
    ///
    /// The task leaves the active set before the snapshot is taken, so the snapshot
    /// returned lists the remaining tasks only, and the message appears in none. Fails
    /// with `NonexistentTask` if the name is not active, and with `TaskAlreadyFinished`
    /// if a task that has ended was registered or written under the name; nothing
    /// changes then.
    pub fn error_task(&mut self, task_name: &str, message: &str) -> (r: Result<
        Option<String>,
        InterprogError,
    >)
        requires
            old(self).wf(),
        ensures
            final(self).wf(),
            match old(self)@.error_task(task_name@, message@) {
                Ok(after) => {
                    &&& final(self)@ == after
                    &&& r matches Ok(line) && line.deep_view() == after.snapshot()
                },
                Err(e) => {
                    &&& final(self)@ == old(self)@
                    &&& r matches Err(x) && x == e
                },
            },
    {
        let task = match self.get_task(task_name) {
            Ok(task) => task,
            Err(e) => { return Err(e); },
        };
        if task.progress.is_terminal() {
            proof {
                old(self)@.lemma_with_same_task(task_name@);
            }
            return Err(InterprogError::TaskAlreadyFinished);
        }
        task.progress = Status::Error { message: message.to_owned() };
        proof {
            old(self)@.lemma_with_task_without(task_name@, task@);
        }
        self.remove_entry(task_name);
        Ok(self.snapshot())
    }

    /// Starts the current task. See [`TaskManager::start_task`].
    ///
    /// Fails with `NonexistentTask` when no task is active. Stale names at the front of
    /// the queue are dropped whether the operation succeeds or not.
    pub fn start(&mut self) -> (r: Result<Option<String>, InterprogError>)
        requires
            old(self).wf(),
        ensures
            final(self).wf(),
            match old(self)@.start() {
                Ok(after) => {
                    &&& final(self)@ == after
                    &&& r matches Ok(line) && line.deep_view() == after.snapshot()
                },
                Err(e) => {
                    &&& final(self)@ == old(self)@.pruned()
                    &&& r matches Err(x) && x == e
                },
            },
    {
        let task_name = match self.get_first_task() {
            Ok(task_name) => task_name,
            Err(e) => { return Err(e); },
        };
        self.start_task(task_name.as_str())
    }

    /// Ends the current task in success. See [`TaskManager::finish_task`].
    ///
    /// Fails with `NonexistentTask` when no task is active. Stale names at the front of
    /// the queue are dropped whether the operation succeeds or not.
    pub fn finish(&mut self) -> (r: Result<Option<String>, InterprogError>)
        requires
            old(self).wf(),
        ensures
            final(self).wf(),
            match old(self)@.finish() {
                Ok(after) => {
                    &&& final(self)@ == after
                    &&& r matches Ok(line) && line.deep_view() == after.snapshot()
                },
                Err(e) => {
                    &&& final(self)@ == old(self)@.pruned()
                    &&& r matches Err(x) && x == e
                },
            },
    {
        let task_name = match self.get_first_task() {
            Ok(task_name) => task_name,
            Err(e) => { return Err(e); },
        };
        self.finish_task(task_name.as_str())
    }

    /// Advances the current task by `by` units. See [`TaskManager::increment_task`].
    ///
    /// Fails with `NonexistentTask` when no task is active. Stale names at the front of
    /// the queue are dropped whether the operation succeeds or not. Where the task
    /// advances, `done + by` has to fit in a `usize`.
    pub fn increment(&mut self, by: usize) -> (r: Result<Option<String>, InterprogError>)
        requires
            old(self).wf(),
            old(self)@.current() matches Some(name) ==> old(self)@.increment_fits(name, by as nat),
        ensures
            final(self).wf(),
            match old(self)@.increment(by as nat) {
                Ok(after) => {
                    &&& final(self)@ == after
                    &&& r matches Ok(line) && line.deep_view() == after.snapshot()
                },
                Err(e) => {
                    &&& final(self)@ == old(self)@.pruned()
                    &&& r matches Err(x) && x == e
                },
            },
    {
        let task_name = match self.get_first_task() {
            Ok(task_name) => task_name,
            Err(e) => { return Err(e); },
        };
        self.increment_task(task_name.as_str(), by)
    }

    /// Ends the current task in failure, for the reason given. See
    /// [`TaskManager::error_task`].
    ///
    /// Fails with `NonexistentTask` when no task is active. Stale names at the front of
    /// the queue are dropped whether the operation succeeds or not.
    pub fn error(&mut self, message: &str) -> (r: Result<Option<String>, InterprogError>)
        requires
            old(self).wf(),
        ensures
            final(self).wf(),
            match old(self)@.error(message@) {
                Ok(after) => {
                    &&& final(self)@ == after
                    &&& r matches Ok(line) && line.deep_view() == after.snapshot()
                },
                Err(e) => {
                    &&& final(self)@ == old(self)@.pruned()
                    &&& r matches Err(x) && x == e
                },
            },
    {
        let task_name = match self.get_first_task() {
            Ok(task_name) => task_name,
            Err(e) => { return Err(e); },
        };
        self.error_task(task_name.as_str(), message)
    }
}

impl Default for TaskManager {
    fn default() -> (manager: TaskManager)
        ensures
            manager@ == ManagerView::empty(false),
            manager.wf(),
    {
        TaskManager::new()
    }
}

} // verus!
