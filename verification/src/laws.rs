//! What holds of every manager, whatever was done with it.
//!
//! The laws are stated over the model of a manager. They hold of the executable manager
//! too, since each of its operations performs the model's transition of the same name.
use crate::errors::InterprogError;
use crate::model::{lemma_stale_prefix, lemma_stale_prefix_is, ManagerView};
use crate::task::{StatusView, TaskView};
use crate::wire::snapshot_text;
use vstd::prelude::*;

verus! {

/// An iterative task in progress advances exactly when `done < total` held before the
/// increment, and then by `by` whatever `by` is: nothing bounds `done` afterwards.
pub proof fn lemma_increment_needs_done_below_total(done: nat, total: nat, by: nat)
    ensures
        (StatusView::InProgress { done, total }).incremented(by) is Ok <==> done < total,
        done < total ==> (StatusView::InProgress { done, total }).incremented(by) == Ok::<
            StatusView,
            InterprogError,
        >(StatusView::InProgress { done: done + by, total }),
        done >= total ==> (StatusView::InProgress { done, total }).incremented(by) == Err::<
            StatusView,
            InterprogError,
        >(InterprogError::TaskAlreadyFinished),
{
}

/// Once a task is started, it cannot be started again.
pub proof fn lemma_started_cannot_start(status: StatusView)
    ensures
        status.started() matches Ok(next) ==> next.started() == Err::<StatusView, InterprogError>(
            InterprogError::TaskAlreadyStarted,
        ),
{
}

/// No operation leads out of Finished or Error: each fails with `TaskAlreadyFinished`.
/// Every other state can be ended, and what starting or incrementing leads to is never
/// final.
pub proof fn lemma_terminal_is_final(status: StatusView, by: nat, last: StatusView)
    ensures
        status.is_terminal() ==> {
            &&& status.started() == Err::<StatusView, InterprogError>(
                InterprogError::TaskAlreadyFinished,
            )
            &&& status.incremented(by) == Err::<StatusView, InterprogError>(
                InterprogError::TaskAlreadyFinished,
            )
            &&& status.ended(last) == Err::<StatusView, InterprogError>(
                InterprogError::TaskAlreadyFinished,
            )
        },
        !status.is_terminal() ==> status.ended(last) == Ok::<StatusView, InterprogError>(last),
        status.started() matches Ok(next) ==> !next.is_terminal(),
        status.incremented(by) matches Ok(next) ==> !next.is_terminal(),
{
}

/// Every transition keeps the invariant of the manager.
pub proof fn lemma_transitions_keep_wf(
    m: ManagerView,
    name: Seq<char>,
    task: TaskView,
    by: nat,
    message: Seq<char>,
)
    requires
        m.wf(),
    ensures
        m.pruned().wf(),
        m.add_task(task) matches Ok(after) ==> after.wf(),
        m.start_task(name) matches Ok(after) ==> after.wf(),
        m.increment_task(name, by) matches Ok(after) ==> after.wf(),
        m.finish_task(name) matches Ok(after) ==> after.wf(),
        m.error_task(name, message) matches Ok(after) ==> after.wf(),
        m.start() matches Ok(after) ==> after.wf(),
        m.increment(by) matches Ok(after) ==> after.wf(),
        m.finish() matches Ok(after) ==> after.wf(),
        m.error(message) matches Ok(after) ==> after.wf(),
{
    m.lemma_pruned();
    m.lemma_add_task(task);
    if m.is_active(name) {
        if let Ok(progress) = m.task(name).progress.started() {
            m.lemma_with_task(name, TaskView { name: m.task(name).name, progress });
        }
        if let Ok(progress) = m.task(name).progress.incremented(by) {
            m.lemma_with_task(name, TaskView { name: m.task(name).name, progress });
        }
        m.lemma_without(name);
    }
    if let Some(current) = m.current() {
        let p = m.pruned();
        m.lemma_current();
        if let Ok(progress) = p.task(current).progress.started() {
            p.lemma_with_task(current, TaskView { name: p.task(current).name, progress });
        }
        if let Ok(progress) = p.task(current).progress.incremented(by) {
            p.lemma_with_task(current, TaskView { name: p.task(current).name, progress });
        }
        p.lemma_without(current);
    }
}

/// An iterative task in progress, whichever it is, advances exactly when `done < total`
/// held before; it then has `done + by` units done, and no other task has changed.
pub proof fn lemma_increment_task_in_progress(
    m: ManagerView,
    name: Seq<char>,
    done: nat,
    total: nat,
    by: nat,
)
    requires
        m.wf(),
        m.is_active(name),
        m.task(name).progress == (StatusView::InProgress { done, total }),
    ensures
        m.increment_task(name, by) is Ok <==> done < total,
        done >= total ==> m.increment_task(name, by) == Err::<ManagerView, InterprogError>(
            InterprogError::TaskAlreadyFinished,
        ),
        m.increment_task(name, by) matches Ok(after) ==> {
            &&& after.keys == m.keys
            &&& after.queue == m.queue
            &&& after.task(name) == (TaskView {
                name: m.task(name).name,
                progress: StatusView::InProgress { done: done + by, total },
            })
            &&& forall|other: Seq<char>|
                m.is_active(other) && other != name ==> #[trigger] after.task(other) == m.task(
                    other,
                )
        },
{
    if let Ok(after) = m.increment_task(name, by) {
        let next = TaskView {
            name: m.task(name).name,
            progress: StatusView::InProgress { done: done + by, total },
        };
        m.lemma_with_task(name, next);
        lemma_others_keep_their_task(m, name, next);
    }
}

/// Writing into the task under one name leaves the task under every other name as it was.
pub proof fn lemma_others_keep_their_task(m: ManagerView, name: Seq<char>, task: TaskView)
    requires
        m.wf(),
        m.is_active(name),
    ensures
        forall|other: Seq<char>|
            m.is_active(other) && other != name ==> #[trigger] m.with_task(name, task).task(other)
                == m.task(other),
{
    m.lemma_slot_of_active(name);
    assert forall|other: Seq<char>| m.is_active(other) && other != name implies #[trigger] m.with_task(
        name,
        task,
    ).task(other) == m.task(other) by {
        m.lemma_slot_of_active(other);
    }
}

/// A name can be registered exactly when it is not active. The task is then active
/// under its name, as the youngest, and the same name cannot be registered again.
pub proof fn lemma_add_task_needs_inactive_name(m: ManagerView, task: TaskView, again: TaskView)
    requires
        m.wf(),
        again.name == task.name,
    ensures
        m.add_task(task) is Ok <==> !m.is_active(task.name),
        m.is_active(task.name) ==> m.add_task(task) == Err::<ManagerView, InterprogError>(
            InterprogError::TaskAlreadyExists,
        ),
        m.add_task(task) matches Ok(after) ==> {
            &&& after.is_active(task.name)
            &&& after.task(task.name) == task
            &&& after.keys.last() == task.name
            &&& after.snapshot() == (if m.silent {
                None
            } else {
                Some(snapshot_text(m.tasks.push(task)))
            })
            &&& after.add_task(again) == Err::<ManagerView, InterprogError>(
                InterprogError::TaskAlreadyExists,
            )
        },
{
    if let Ok(after) = m.add_task(task) {
        m.lemma_add_task(task);
        after.lemma_slot_of_key(m.keys.len() as int);
    }
}

/// Starting the same task twice fails the second time with `TaskAlreadyStarted`.
pub proof fn lemma_start_task_twice(m: ManagerView, name: Seq<char>)
    requires
        m.wf(),
    ensures
        m.start_task(name) matches Ok(after) ==> after.start_task(name) == Err::<
            ManagerView,
            InterprogError,
        >(InterprogError::TaskAlreadyStarted),
{
    if let Ok(after) = m.start_task(name) {
        let progress = m.task(name).progress.started()->Ok_0;
        m.lemma_with_task(name, TaskView { name: m.task(name).name, progress });
    }
}

/// Starting the current task twice fails the second time with `TaskAlreadyStarted`: the
/// task is still the current one.
pub proof fn lemma_start_twice(m: ManagerView)
    requires
        m.wf(),
    ensures
        m.start() matches Ok(after) ==> after.current() == m.current() && after.start() == Err::<
            ManagerView,
            InterprogError,
        >(InterprogError::TaskAlreadyStarted),
{
    if let Ok(after) = m.start() {
        let name = m.current()->Some_0;
        let p = m.pruned();
        m.lemma_pruned();
        m.lemma_current();
        lemma_start_task_twice(p, name);
        assert(after.keys == p.keys && after.queue == p.queue);
        assert(after.stale() == p.stale());
        assert(after.queue.skip(0) =~= after.queue);
        assert(after.pruned() == after);
    }
}

/// A task can be ended exactly when it is active and has not ended yet. After
/// `finish_task` or `error_task` it is absent from the active set, the snapshot lists the
/// other tasks in their order, and every operation on the name fails with
/// `NonexistentTask`.
pub proof fn lemma_ended_task_is_gone(m: ManagerView, name: Seq<char>, by: nat, message: Seq<char>)
    requires
        m.wf(),
    ensures
        m.error_task(name, message) == m.finish_task(name),
        m.finish_task(name) is Ok <==> m.is_active(name) && !m.task(name).progress.is_terminal(),
        m.finish_task(name) matches Ok(after) ==> {
            &&& !after.is_active(name)
            &&& after.keys == m.keys.remove(m.slot(name))
            &&& after.tasks == m.tasks.remove(m.slot(name))
            &&& after.snapshot() == (if m.silent {
                None
            } else {
                Some(snapshot_text(m.tasks.remove(m.slot(name))))
            })
            &&& forall|other: Seq<char>|
                other != name ==> (#[trigger] after.is_active(other) <==> m.is_active(other))
            &&& after.start_task(name) == Err::<ManagerView, InterprogError>(
                InterprogError::NonexistentTask,
            )
            &&& after.increment_task(name, by) == Err::<ManagerView, InterprogError>(
                InterprogError::NonexistentTask,
            )
            &&& after.finish_task(name) == Err::<ManagerView, InterprogError>(
                InterprogError::NonexistentTask,
            )
            &&& after.error_task(name, message) == Err::<ManagerView, InterprogError>(
                InterprogError::NonexistentTask,
            )
        },
{
    if m.is_active(name) {
        m.lemma_without(name);
    }
}

/// A name without an active task stays so under every operation but its own
/// registration, so a task that has left appears in no later snapshot.
pub proof fn lemma_inactive_name_stays_inactive(
    m: ManagerView,
    gone: Seq<char>,
    name: Seq<char>,
    task: TaskView,
    by: nat,
    message: Seq<char>,
)
    requires
        m.wf(),
        !m.is_active(gone),
    ensures
        !m.pruned().is_active(gone),
        task.name != gone ==> (m.add_task(task) matches Ok(after) ==> !after.is_active(gone)),
        m.start_task(name) matches Ok(after) ==> !after.is_active(gone),
        m.increment_task(name, by) matches Ok(after) ==> !after.is_active(gone),
        m.finish_task(name) matches Ok(after) ==> !after.is_active(gone),
        m.error_task(name, message) matches Ok(after) ==> !after.is_active(gone),
        m.start() matches Ok(after) ==> !after.is_active(gone),
        m.increment(by) matches Ok(after) ==> !after.is_active(gone),
        m.finish() matches Ok(after) ==> !after.is_active(gone),
        m.error(message) matches Ok(after) ==> !after.is_active(gone),
{
    if let Ok(after) = m.add_task(task) {
        if task.name != gone && after.is_active(gone) {
            let i = after.keys.index_of(gone);
            assert(m.keys[i] == gone);
        }
    }
    if m.is_active(name) {
        m.lemma_without(name);
    }
    if let Some(current) = m.current() {
        m.lemma_pruned();
        m.lemma_current();
        m.pruned().lemma_without(current);
    }
}

/// No active task has ended.
pub open spec fn none_ended(m: ManagerView) -> bool {
    forall|i: int| 0 <= i < m.tasks.len() ==> !(#[trigger] m.tasks[i]).progress.is_terminal()
}

/// The manager keeps no task that has ended: unless such a task is registered or
/// written by the caller, none is ever active, and then a task can be ended exactly
/// when it is active.
pub proof fn lemma_ended_tasks_are_not_kept(
    m: ManagerView,
    name: Seq<char>,
    task: TaskView,
    by: nat,
    message: Seq<char>,
)
    requires
        m.wf(),
        none_ended(m),
    ensures
        none_ended(ManagerView::empty(m.silent)),
        none_ended(m.pruned()),
        !task.progress.is_terminal() ==> (m.add_task(task) matches Ok(after) ==> none_ended(after)),
        m.start_task(name) matches Ok(after) ==> none_ended(after),
        m.increment_task(name, by) matches Ok(after) ==> none_ended(after),
        m.finish_task(name) matches Ok(after) ==> none_ended(after),
        m.error_task(name, message) matches Ok(after) ==> none_ended(after),
        m.start() matches Ok(after) ==> none_ended(after),
        m.increment(by) matches Ok(after) ==> none_ended(after),
        m.finish() matches Ok(after) ==> none_ended(after),
        m.error(message) matches Ok(after) ==> none_ended(after),
        m.finish_task(name) is Ok <==> m.is_active(name),
        m.error_task(name, message) is Ok <==> m.is_active(name),
        m.finish() is Ok <==> m.keys.len() > 0,
        m.error(message) is Ok <==> m.keys.len() > 0,
{
    m.lemma_current();
    m.lemma_pruned();
    if m.is_active(name) {
        m.lemma_slot_of_active(name);
        lemma_without_keeps_unended(m, name);
    }
    if let Some(current) = m.current() {
        let p = m.pruned();
        p.lemma_slot_of_active(current);
        lemma_without_keeps_unended(p, current);
    }
}

proof fn lemma_without_keeps_unended(m: ManagerView, name: Seq<char>)
    requires
        m.wf(),
        none_ended(m),
        m.is_active(name),
    ensures
        none_ended(m.without(name)),
{
    m.lemma_slot_of_active(name);
    let s = m.slot(name);
    let after = m.without(name);
    assert forall|i: int| 0 <= i < after.tasks.len() implies !(#[trigger] after.tasks[i]).progress.is_terminal() by {
        if i < s {
            assert(after.tasks[i] == m.tasks[i]);
        } else {
            assert(after.tasks[i] == m.tasks[i + 1]);
        }
    }
}

/// The current task is the first name in the queue that has an active task: every name
/// before it is stale.
pub proof fn lemma_current_is_first_active(m: ManagerView, name: Seq<char>)
    ensures
        m.current() == Some(name) <==> exists|k: int|
            {
                &&& 0 <= k < m.queue.len()
                &&& #[trigger] m.queue[k] == name
                &&& m.is_active(name)
                &&& forall|j: int| 0 <= j < k ==> !m.is_active(#[trigger] m.queue[j])
            },
        m.current() is None <==> forall|k: int|
            0 <= k < m.queue.len() ==> !m.is_active(#[trigger] m.queue[k]),
{
    lemma_stale_prefix(m.queue, m.keys);
    let s = m.stale() as int;
    if m.current() == Some(name) {
        assert(m.queue[s] == name);
    }
    if exists|k: int|
        {
            &&& 0 <= k < m.queue.len()
            &&& #[trigger] m.queue[k] == name
            &&& m.is_active(name)
            &&& forall|j: int| 0 <= j < k ==> !m.is_active(#[trigger] m.queue[j])
        } {
        let k = choose|k: int|
            {
                &&& 0 <= k < m.queue.len()
                &&& #[trigger] m.queue[k] == name
                &&& m.is_active(name)
                &&& forall|j: int| 0 <= j < k ==> !m.is_active(#[trigger] m.queue[j])
            };
        lemma_stale_prefix_is(m.queue, m.keys, k);
    }
    if m.current() is None {
        assert(s == m.queue.len());
    }
    if forall|k: int| 0 <= k < m.queue.len() ==> !m.is_active(#[trigger] m.queue[k]) {
        lemma_stale_prefix_is(m.queue, m.keys, m.queue.len() as int);
    }
}

/// The queue holds no name twice: no name was registered again while an earlier entry
/// of it was still queued.
pub open spec fn queued_once(m: ManagerView) -> bool {
    m.queue.no_duplicates()
}

/// First in, first out: as long as the queue holds no name twice, the current task is
/// the oldest active task, and an operation without a name is the operation on that
/// task's name.
pub proof fn lemma_current_is_oldest(m: ManagerView, by: nat, message: Seq<char>)
    requires
        m.wf(),
        queued_once(m),
        m.keys.len() > 0,
    ensures
        m.current() == Some(m.keys[0]),
        m.start() == m.pruned().start_task(m.keys[0]),
        m.increment(by) == m.pruned().increment_task(m.keys[0], by),
        m.finish() == m.pruned().finish_task(m.keys[0]),
        m.error(message) == m.pruned().error_task(m.keys[0], message),
{
    m.lemma_current();
    lemma_stale_prefix(m.queue, m.keys);
    let s = m.stale() as int;
    let name = m.queue[s];
    let c = m.keys.index_of(name);
    if c > 0 {
        assert(crate::model::queued_in_order(m.queue, m.keys[0], m.keys[c]));
        let (p, q) = choose|p: int, q: int|
            0 <= p < q < m.queue.len() && m.queue[p] == m.keys[0] && m.queue[q] == m.keys[c];
        assert(q == s);
        assert(m.keys.contains(m.queue[p]));
    }
}

/// The queue keeps holding no name twice under every operation, but for the
/// registration of a name that is still queued.
pub proof fn lemma_queued_once_is_kept(
    m: ManagerView,
    name: Seq<char>,
    task: TaskView,
    by: nat,
    message: Seq<char>,
)
    requires
        m.wf(),
        queued_once(m),
    ensures
        queued_once(ManagerView::empty(m.silent)),
        queued_once(m.pruned()),
        !m.queue.contains(task.name) ==> (m.add_task(task) matches Ok(after) ==> queued_once(after)),
        m.start_task(name) matches Ok(after) ==> queued_once(after),
        m.increment_task(name, by) matches Ok(after) ==> queued_once(after),
        m.finish_task(name) matches Ok(after) ==> queued_once(after),
        m.error_task(name, message) matches Ok(after) ==> queued_once(after),
        m.start() matches Ok(after) ==> queued_once(after),
        m.increment(by) matches Ok(after) ==> queued_once(after),
        m.finish() matches Ok(after) ==> queued_once(after),
        m.error(message) matches Ok(after) ==> queued_once(after),
{
    lemma_stale_prefix(m.queue, m.keys);
}

} // verus!
