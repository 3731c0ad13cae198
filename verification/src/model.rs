//! The mathematical state of a task manager, and what each operation makes of it.
//!
//! The executable manager is specified against this model: each of its operations states
//! which of the transitions below it performs.
use crate::errors::InterprogError;
use crate::task::{StatusView, TaskView};
use crate::wire::snapshot_text;
use vstd::prelude::*;

verus! {

/// How many names at the front of `queue` are stale, that is, not among `keys`.
pub open spec fn stale_prefix(queue: Seq<Seq<char>>, keys: Seq<Seq<char>>) -> nat
    decreases queue.len(),
{
    if queue.len() == 0 || keys.contains(queue[0]) {
        0
    } else {
        1 + stale_prefix(queue.drop_first(), keys)
    }
}

/// `first` stands in `queue` somewhere before `second`.
pub open spec fn queued_in_order(queue: Seq<Seq<char>>, first: Seq<char>, second: Seq<char>) -> bool {
    exists|p: int, q: int| 0 <= p < q < queue.len() && queue[p] == first && queue[q] == second
}

/// The state of a task manager.
#[verifier::ext_equal]
pub struct ManagerView {
    /// The names under which the active tasks were registered, oldest first.
    pub keys: Seq<Seq<char>>,
    /// The active tasks: `tasks[i]` was registered under `keys[i]`.
    pub tasks: Seq<TaskView>,
    /// Names in the order of their registration. A name stays here when its task leaves
    /// the active set; such stale names are dropped when the current task is looked up.
    pub queue: Seq<Seq<char>>,
    /// A silent manager emits no snapshots.
    pub silent: bool,
}

impl ManagerView {
    /// A manager without tasks.
    pub open spec fn empty(silent: bool) -> ManagerView {
        ManagerView { keys: Seq::empty(), tasks: Seq::empty(), queue: Seq::empty(), silent }
    }

    /// There is an active task under this name.
    pub open spec fn is_active(self, name: Seq<char>) -> bool {
        self.keys.contains(name)
    }

    /// The invariant of a manager: each active task has one name, no name is active
    /// twice, every active name is queued, and an older active task is queued before
    /// a younger one.
    pub open spec fn wf(self) -> bool {
        &&& self.keys.len() == self.tasks.len()
        &&& self.keys.no_duplicates()
        &&& forall|i: int| 0 <= i < self.keys.len() ==> self.queue.contains(#[trigger] self.keys[i])
        &&& forall|i: int, j: int|
            0 <= i < j < self.keys.len() ==> #[trigger] queued_in_order(
                self.queue,
                self.keys[i],
                self.keys[j],
            )
    }

    /// Where the task of an active name stands among the active tasks.
    pub open spec fn slot(self, name: Seq<char>) -> int {
        self.keys.index_of(name)
    }

    /// The task registered under an active name.
    pub open spec fn task(self, name: Seq<char>) -> TaskView {
        self.tasks[self.slot(name)]
    }

    /// How many names at the front of the queue are stale.
    pub open spec fn stale(self) -> nat {
        stale_prefix(self.queue, self.keys)
    }

    /// The name that an operation without a name acts on: the first name in the queue
    /// that has an active task.
    pub open spec fn current(self) -> Option<Seq<char>> {
        if self.stale() < self.queue.len() {
            Some(self.queue[self.stale() as int])
        } else {
            None
        }
    }

    /// The same manager once the stale names at the front of the queue are dropped.
    pub open spec fn pruned(self) -> ManagerView {
        ManagerView { queue: self.queue.skip(self.stale() as int), ..self }
    }

    /// What an operation that changed a task's state emits in this state: nothing from a
    /// silent manager, else the snapshot of the active tasks, oldest first.
    pub open spec fn snapshot(self) -> Option<Seq<char>> {
        if self.silent {
            None
        } else {
            Some(snapshot_text(self.tasks))
        }
    }

    /// The same manager with `task` in place of the task registered under `name`.
    pub open spec fn with_task(self, name: Seq<char>, task: TaskView) -> ManagerView {
        ManagerView { tasks: self.tasks.update(self.slot(name), task), ..self }
    }

    /// The same manager with the task under `name` in the state `progress`.
    pub open spec fn with_progress(self, name: Seq<char>, progress: StatusView) -> ManagerView {
        self.with_task(name, TaskView { name: self.task(name).name, progress })
    }

    /// The same manager without the task registered under `name`. The queue keeps the name.
    pub open spec fn without(self, name: Seq<char>) -> ManagerView {
        ManagerView {
            keys: self.keys.remove(self.slot(name)),
            tasks: self.tasks.remove(self.slot(name)),
            ..self
        }
    }

    /// Registers `task` under its name, as the youngest task, unless the name is active.
    pub open spec fn add_task(self, task: TaskView) -> Result<ManagerView, InterprogError> {
        if self.is_active(task.name) {
            Err(InterprogError::TaskAlreadyExists)
        } else {
            Ok(
                ManagerView {
                    keys: self.keys.push(task.name),
                    tasks: self.tasks.push(task),
                    queue: self.queue.push(task.name),
                    ..self
                },
            )
        }
    }

    /// Starts the task under `name`.
    pub open spec fn start_task(self, name: Seq<char>) -> Result<ManagerView, InterprogError> {
        if !self.is_active(name) {
            Err(InterprogError::NonexistentTask)
        } else {
            match self.task(name).progress.started() {
                Ok(progress) => Ok(self.with_progress(name, progress)),
                Err(e) => Err(e),
            }
        }
    }

    /// Advances the task under `name` by `by` units.
    pub open spec fn increment_task(self, name: Seq<char>, by: nat) -> Result<
        ManagerView,
        InterprogError,
    > {
        if !self.is_active(name) {
            Err(InterprogError::NonexistentTask)
        } else {
            match self.task(name).progress.incremented(by) {
                Ok(progress) => Ok(self.with_progress(name, progress)),
                Err(e) => Err(e),
            }
        }
    }

    /// Ends the task under `name` in success: it leaves the active set.
    pub open spec fn finish_task(self, name: Seq<char>) -> Result<ManagerView, InterprogError> {
        if !self.is_active(name) {
            Err(InterprogError::NonexistentTask)
        } else {
            match self.task(name).progress.ended(StatusView::Finished) {
                Ok(_) => Ok(self.without(name)),
                Err(e) => Err(e),
            }
        }
    }

    /// Ends the task under `name` in failure: it leaves the active set, and its message
    /// with it.
    pub open spec fn error_task(self, name: Seq<char>, message: Seq<char>) -> Result<
        ManagerView,
        InterprogError,
    > {
        if !self.is_active(name) {
            Err(InterprogError::NonexistentTask)
        } else {
            match self.task(name).progress.ended(StatusView::Error { message }) {
                Ok(_) => Ok(self.without(name)),
                Err(e) => Err(e),
            }
        }
    }

    /// Starts the current task.
    pub open spec fn start(self) -> Result<ManagerView, InterprogError> {
        match self.current() {
            Some(name) => self.pruned().start_task(name),
            None => Err(InterprogError::NonexistentTask),
        }
    }

    /// Advances the current task by `by` units.
    pub open spec fn increment(self, by: nat) -> Result<ManagerView, InterprogError> {
        match self.current() {
            Some(name) => self.pruned().increment_task(name, by),
            None => Err(InterprogError::NonexistentTask),
        }
    }

    /// Ends the current task in success.
    pub open spec fn finish(self) -> Result<ManagerView, InterprogError> {
        match self.current() {
            Some(name) => self.pruned().finish_task(name),
            None => Err(InterprogError::NonexistentTask),
        }
    }

    /// Ends the current task in failure.
    pub open spec fn error(self, message: Seq<char>) -> Result<ManagerView, InterprogError> {
        match self.current() {
            Some(name) => self.pruned().error_task(name, message),
            None => Err(InterprogError::NonexistentTask),
        }
    }

    /// An increment by `by` of the task under `name` stays within the machine's integers.
    pub open spec fn increment_fits(self, name: Seq<char>, by: nat) -> bool {
        self.is_active(name) ==> match self.task(name).progress {
            StatusView::InProgress { done, total } => done < total ==> done + by <= usize::MAX,
            _ => true,
        }
    }
}

/// The stale prefix of a queue holds stale names only, and the name that follows it,
/// if there is one, is active.
pub proof fn lemma_stale_prefix(queue: Seq<Seq<char>>, keys: Seq<Seq<char>>)
    ensures
        stale_prefix(queue, keys) <= queue.len(),
        forall|j: int| 0 <= j < stale_prefix(queue, keys) ==> !keys.contains(#[trigger] queue[j]),
        stale_prefix(queue, keys) < queue.len() ==> keys.contains(
            queue[stale_prefix(queue, keys) as int],
        ),
    decreases queue.len(),
{
    if queue.len() != 0 && !keys.contains(queue[0]) {
        let rest = queue.drop_first();
        lemma_stale_prefix(rest, keys);
        assert forall|j: int| 0 <= j < stale_prefix(queue, keys) implies !keys.contains(
            #[trigger] queue[j],
        ) by {
            if j > 0 {
                assert(queue[j] == rest[j - 1]);
            }
        }
        if stale_prefix(queue, keys) < queue.len() {
            assert(queue[stale_prefix(queue, keys) as int] == rest[stale_prefix(rest, keys) as int]);
        }
    }
}

/// If the first `n` names of a queue are stale and the name after them, if there is one,
/// is active, then the stale prefix is those `n` names.
pub proof fn lemma_stale_prefix_is(queue: Seq<Seq<char>>, keys: Seq<Seq<char>>, n: int)
    requires
        0 <= n <= queue.len(),
        forall|j: int| 0 <= j < n ==> !keys.contains(#[trigger] queue[j]),
        n < queue.len() ==> keys.contains(queue[n]),
    ensures
        stale_prefix(queue, keys) == n,
{
    lemma_stale_prefix(queue, keys);
    let k = stale_prefix(queue, keys) as int;
    if k < n {
        assert(!keys.contains(queue[k]));
    } else if k > n {
        assert(keys.contains(queue[n]));
    }
}

impl ManagerView {
    /// The slot of an active name is where the name stands among the keys.
    pub proof fn lemma_slot_of_active(self, name: Seq<char>)
        requires
            self.is_active(name),
        ensures
            0 <= self.slot(name) < self.keys.len(),
            self.keys[self.slot(name)] == name,
    {
    }

    /// Without duplicates among the keys, the slot of `keys[i]` is `i`.
    pub proof fn lemma_slot_of_key(self, i: int)
        requires
            self.keys.no_duplicates(),
            0 <= i < self.keys.len(),
        ensures
            self.is_active(self.keys[i]),
            self.slot(self.keys[i]) == i,
    {
        assert(self.is_active(self.keys[i]));
        self.lemma_slot_of_active(self.keys[i]);
    }

    /// A current task exists exactly when there is an active task, and it is active.
    pub proof fn lemma_current(self)
        requires
            self.wf(),
        ensures
            self.current() is Some <==> self.keys.len() > 0,
            self.current() matches Some(name) ==> self.is_active(name),
    {
        lemma_stale_prefix(self.queue, self.keys);
        if self.keys.len() > 0 {
            let name = self.keys[0];
            assert(self.queue.contains(name));
            let p = self.queue.index_of(name);
            assert(self.keys.contains(self.queue[p]));
        }
    }

    /// Dropping the stale names from the front of the queue keeps the invariant and the
    /// current task, and leaves no stale name in front.
    pub proof fn lemma_pruned(self)
        requires
            self.wf(),
        ensures
            self.pruned().wf(),
            self.pruned().current() == self.current(),
            self.pruned().stale() == 0,
            self.pruned().pruned() == self.pruned(),
    {
        lemma_stale_prefix(self.queue, self.keys);
        let k = self.stale() as int;
        let after = self.pruned();
        assert forall|i: int| 0 <= i < after.keys.len() implies after.queue.contains(
            #[trigger] after.keys[i],
        ) by {
            assert(self.queue.contains(self.keys[i]));
            let p = self.queue.index_of(self.keys[i]);
            assert(self.keys.contains(self.queue[p]));
            assert(after.queue[p - k] == self.keys[i]);
        }
        assert forall|i: int, j: int| 0 <= i < j < after.keys.len() implies #[trigger] queued_in_order(
            after.queue,
            after.keys[i],
            after.keys[j],
        ) by {
            assert(queued_in_order(self.queue, self.keys[i], self.keys[j]));
            let (p, q) = choose|p: int, q: int|
                0 <= p < q < self.queue.len() && self.queue[p] == self.keys[i] && self.queue[q]
                    == self.keys[j];
            assert(self.keys.contains(self.queue[p]));
            assert(after.queue[p - k] == self.keys[i]);
            assert(after.queue[q - k] == self.keys[j]);
        }
        if k < self.queue.len() {
            assert(after.queue[0] == self.queue[k]);
        }
        lemma_stale_prefix_is(after.queue, after.keys, 0);
        assert(after.queue.skip(0) =~= after.queue);
    }

    /// Registering a task keeps the invariant.
    pub proof fn lemma_add_task(self, task: TaskView)
        requires
            self.wf(),
        ensures
            self.add_task(task) matches Ok(after) ==> after.wf(),
    {
        if let Ok(after) = self.add_task(task) {
            let last = self.queue.len() as int;
            assert(after.queue[last] == task.name);
            assert forall|i: int| 0 <= i < after.keys.len() implies after.queue.contains(
                #[trigger] after.keys[i],
            ) by {
                if i < self.keys.len() {
                    assert(self.queue.contains(self.keys[i]));
                    let p = self.queue.index_of(self.keys[i]);
                    assert(after.queue[p] == self.keys[i]);
                }
            }
            assert forall|i: int, j: int| 0 <= i < j < after.keys.len() implies #[trigger] queued_in_order(
                after.queue,
                after.keys[i],
                after.keys[j],
            ) by {
                if j < self.keys.len() {
                    assert(queued_in_order(self.queue, self.keys[i], self.keys[j]));
                    let (p, q) = choose|p: int, q: int|
                        0 <= p < q < self.queue.len() && self.queue[p] == self.keys[i]
                            && self.queue[q] == self.keys[j];
                    assert(after.queue[p] == after.keys[i] && after.queue[q] == after.keys[j]);
                } else {
                    assert(self.queue.contains(self.keys[i]));
                    let p = self.queue.index_of(self.keys[i]);
                    assert(after.queue[p] == after.keys[i] && after.queue[last] == after.keys[j]);
                }
            }
        }
    }

    /// Replacing the task under an active name keeps the invariant.
    pub proof fn lemma_with_task(self, name: Seq<char>, task: TaskView)
        requires
            self.wf(),
            self.is_active(name),
        ensures
            self.with_task(name, task).wf(),
            self.with_task(name, task).task(name) == task,
    {
        self.lemma_slot_of_active(name);
    }

    /// Putting back the task that is already registered under a name changes nothing.
    pub proof fn lemma_with_same_task(self, name: Seq<char>)
        requires
            self.wf(),
            self.is_active(name),
        ensures
            self.with_task(name, self.task(name)) == self,
    {
        self.lemma_slot_of_active(name);
        assert(self.tasks.update(self.slot(name), self.task(name)) =~= self.tasks);
    }

    /// A task that leaves takes with it whatever was written into it before.
    pub proof fn lemma_with_task_without(self, name: Seq<char>, task: TaskView)
        requires
            self.wf(),
            self.is_active(name),
        ensures
            self.with_task(name, task).without(name) == self.without(name),
    {
        self.lemma_slot_of_active(name);
        let s = self.slot(name);
        assert(self.tasks.update(s, task).remove(s) =~= self.tasks.remove(s));
    }

    /// Dropping the task under an active name keeps the invariant; the name is then
    /// inactive, and every other name is as active as before.
    pub proof fn lemma_without(self, name: Seq<char>)
        requires
            self.wf(),
            self.is_active(name),
        ensures
            self.without(name).wf(),
            !self.without(name).is_active(name),
            forall|other: Seq<char>|
                other != name ==> (#[trigger] self.without(name).is_active(other)
                    <==> self.is_active(other)),
    {
        self.lemma_slot_of_active(name);
        let s = self.slot(name);
        let after = self.without(name);
        let old_index = |i: int| if i < s { i } else { i + 1 };
        assert forall|i: int| 0 <= i < after.keys.len() implies after.keys[i] == self.keys[old_index(i)] by {}
        assert forall|i: int| 0 <= i < after.keys.len() implies after.queue.contains(
            #[trigger] after.keys[i],
        ) by {
            assert(self.queue.contains(self.keys[old_index(i)]));
        }
        assert forall|i: int, j: int| 0 <= i < j < after.keys.len() implies #[trigger] queued_in_order(
            after.queue,
            after.keys[i],
            after.keys[j],
        ) by {
            assert(queued_in_order(self.queue, self.keys[old_index(i)], self.keys[old_index(j)]));
        }
        if after.is_active(name) {
            let i = after.keys.index_of(name);
            assert(self.keys[old_index(i)] == name);
        }
        assert forall|other: Seq<char>| other != name implies (#[trigger] after.is_active(other)
            <==> self.is_active(other)) by {
            if after.is_active(other) {
                let i = after.keys.index_of(other);
                assert(self.keys[old_index(i)] == other);
            }
            if self.is_active(other) {
                let i = self.keys.index_of(other);
                if i < s {
                    assert(after.keys[i] == other);
                } else {
                    assert(after.keys[i - 1] == other);
                }
            }
        }
    }
}

} // verus!
