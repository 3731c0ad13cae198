//! What the manager emits and reports, step by step.
use interprog::{InterprogError, Status, Task, TaskManager};

fn line(text: &str) -> Result<Option<String>, InterprogError> {
    Ok(Some(text.to_string()))
}

#[test]
fn spinner_runs_and_finishes() {
    let mut manager = TaskManager::new();
    assert_eq!(manager.add_task(Task::new("Log in")), Ok(()));
    assert_eq!(
        manager.start(),
        line("[{\"name\":\"Log in\",\"status\":\"running\"}]")
    );
    assert_eq!(manager.finish(), line("[]"));
}

#[test]
fn iterative_task_may_overshoot_its_total() {
    let mut manager = TaskManager::new();
    manager.add_task(Task::new("Do work").total(3)).unwrap();
    assert_eq!(
        manager.start_task("Do work"),
        line("[{\"name\":\"Do work\",\"status\":\"in_progress\",\"done\":0,\"total\":3}]")
    );
    assert_eq!(
        manager.increment_task("Do work", 2),
        line("[{\"name\":\"Do work\",\"status\":\"in_progress\",\"done\":2,\"total\":3}]")
    );
    assert_eq!(
        manager.increment_task("Do work", 2),
        line("[{\"name\":\"Do work\",\"status\":\"in_progress\",\"done\":4,\"total\":3}]")
    );
    assert_eq!(
        manager.get_task("Do work").unwrap().progress,
        Status::InProgress { done: 4, total: 3 }
    );
    assert_eq!(
        manager.increment_task("Do work", 1),
        Err(InterprogError::TaskAlreadyFinished)
    );
    assert_eq!(
        manager.get_task("Do work").unwrap().progress,
        Status::InProgress { done: 4, total: 3 }
    );
}

#[test]
fn same_name_twice_is_refused() {
    let mut manager = TaskManager::new();
    assert_eq!(manager.add_task(Task::new("A")), Ok(()));
    assert_eq!(
        manager.add_task(Task::new("A")),
        Err(InterprogError::TaskAlreadyExists)
    );
    assert_eq!(
        manager.add_task(Task::new("A").total(7)),
        Err(InterprogError::TaskAlreadyExists)
    );
    assert_eq!(
        manager.snapshot(),
        Some("[{\"name\":\"A\",\"status\":\"pending\",\"total\":null}]".to_string())
    );
}

#[test]
fn empty_manager_has_no_current_task() {
    let mut manager = TaskManager::new();
    assert_eq!(manager.start(), Err(InterprogError::NonexistentTask));
    assert_eq!(manager.increment(1), Err(InterprogError::NonexistentTask));
    assert_eq!(manager.finish(), Err(InterprogError::NonexistentTask));
    assert_eq!(manager.error("why"), Err(InterprogError::NonexistentTask));
    assert_eq!(
        manager.get_first_task(),
        Err(InterprogError::NonexistentTask)
    );
    assert_eq!(manager.snapshot(), Some("[]".to_string()));
}

#[test]
fn spinner_cannot_be_incremented() {
    let mut manager = TaskManager::new();
    manager.add_task(Task::new("Spinner")).unwrap();
    assert_eq!(manager.increment(1), Err(InterprogError::InvalidTaskType));
    manager.start().unwrap();
    assert_eq!(manager.increment(1), Err(InterprogError::InvalidTaskType));
    assert_eq!(
        manager.increment_task("Spinner", 1),
        Err(InterprogError::InvalidTaskType)
    );
    assert_eq!(
        manager.get_task("Spinner").unwrap().progress,
        Status::Running
    );
}

#[test]
fn finished_task_cannot_be_finished_again() {
    let mut manager = TaskManager::new();
    manager.add_task(Task::new("X")).unwrap();
    assert_eq!(manager.finish(), line("[]"));
    assert_eq!(manager.finish(), Err(InterprogError::NonexistentTask));
    assert_eq!(
        manager.finish_task("X"),
        Err(InterprogError::NonexistentTask)
    );
}

#[test]
fn unknown_name_is_reported() {
    let mut manager = TaskManager::new();
    manager.add_task(Task::new("here")).unwrap();
    assert_eq!(
        manager.start_task("absent"),
        Err(InterprogError::NonexistentTask)
    );
    assert_eq!(
        manager.increment_task("absent", 1),
        Err(InterprogError::NonexistentTask)
    );
    assert_eq!(
        manager.finish_task("absent"),
        Err(InterprogError::NonexistentTask)
    );
    assert_eq!(
        manager.error_task("absent", "why"),
        Err(InterprogError::NonexistentTask)
    );
    assert_eq!(
        manager.get_task("absent").err(),
        Some(InterprogError::NonexistentTask)
    );
    assert_eq!(
        manager.snapshot(),
        Some("[{\"name\":\"here\",\"status\":\"pending\",\"total\":null}]".to_string())
    );
}

#[test]
fn start_twice_fails_the_second_time() {
    let mut manager = TaskManager::new();
    manager.add_task(Task::new("spin")).unwrap();
    manager.add_task(Task::new("count").total(2)).unwrap();
    assert!(manager.start_task("spin").is_ok());
    assert_eq!(
        manager.start_task("spin"),
        Err(InterprogError::TaskAlreadyStarted)
    );
    assert!(manager.start_task("count").is_ok());
    assert_eq!(
        manager.start_task("count"),
        Err(InterprogError::TaskAlreadyStarted)
    );
    assert_eq!(manager.start(), Err(InterprogError::TaskAlreadyStarted));
}

#[test]
fn first_increment_starts_a_pending_task_with_one_done() {
    let mut manager = TaskManager::new();
    manager.add_task(Task::new("count").total(5)).unwrap();
    assert_eq!(
        manager.increment_task("count", 3),
        line("[{\"name\":\"count\",\"status\":\"in_progress\",\"done\":1,\"total\":5}]")
    );
    assert_eq!(
        manager.increment(3),
        line("[{\"name\":\"count\",\"status\":\"in_progress\",\"done\":4,\"total\":5}]")
    );
    assert_eq!(
        manager.start(),
        Err(InterprogError::TaskAlreadyStarted)
    );
}

#[test]
fn increment_needs_done_below_total() {
    let mut manager = TaskManager::new();
    manager.add_task(Task::new("none").total(0)).unwrap();
    manager.start_task("none").unwrap();
    assert_eq!(
        manager.increment_task("none", 1),
        Err(InterprogError::TaskAlreadyFinished)
    );
    manager.add_task(Task::new("one").total(1)).unwrap();
    manager.start_task("one").unwrap();
    assert!(manager.increment_task("one", 1_000_000).is_ok());
    assert_eq!(
        manager.get_task("one").unwrap().progress,
        Status::InProgress {
            done: 1_000_000,
            total: 1
        }
    );
    assert_eq!(
        manager.increment_task("one", 0),
        Err(InterprogError::TaskAlreadyFinished)
    );
    manager.add_task(Task::new("still").total(2)).unwrap();
    manager.start_task("still").unwrap();
    assert!(manager.increment_task("still", 0).is_ok());
    assert_eq!(
        manager.get_task("still").unwrap().progress,
        Status::InProgress { done: 0, total: 2 }
    );
}

#[test]
fn ended_task_leaves_before_the_snapshot() {
    let mut manager = TaskManager::new();
    manager.add_task(Task::new("a")).unwrap();
    manager.add_task(Task::new("b").total(2)).unwrap();
    manager.add_task(Task::new("c")).unwrap();
    assert_eq!(
        manager.error_task("b", "broken"),
        line(
            "[{\"name\":\"a\",\"status\":\"pending\",\"total\":null},\
             {\"name\":\"c\",\"status\":\"pending\",\"total\":null}]"
        )
    );
    assert_eq!(
        manager.get_task("b").err(),
        Some(InterprogError::NonexistentTask)
    );
    assert_eq!(
        manager.start_task("b"),
        Err(InterprogError::NonexistentTask)
    );
    assert_eq!(
        manager.increment_task("b", 1),
        Err(InterprogError::NonexistentTask)
    );
    assert_eq!(
        manager.error_task("b", "again"),
        Err(InterprogError::NonexistentTask)
    );
    assert_eq!(
        manager.finish_task("a"),
        line("[{\"name\":\"c\",\"status\":\"pending\",\"total\":null}]")
    );
    assert_eq!(manager.error("last"), line("[]"));
    assert_eq!(manager.error("none"), Err(InterprogError::NonexistentTask));
}

#[test]
fn name_is_free_again_once_its_task_has_left() {
    let mut manager = TaskManager::new();
    manager.add_task(Task::new("job")).unwrap();
    manager.finish_task("job").unwrap();
    assert_eq!(manager.add_task(Task::new("job").total(2)), Ok(()));
    assert_eq!(
        manager.start(),
        line("[{\"name\":\"job\",\"status\":\"in_progress\",\"done\":0,\"total\":2}]")
    );
}

#[test]
fn current_task_is_the_oldest_active_one() {
    let mut manager = TaskManager::new();
    manager.add_task(Task::new("A")).unwrap();
    manager.add_task(Task::new("B")).unwrap();
    manager.add_task(Task::new("C")).unwrap();
    assert_eq!(manager.get_first_task(), Ok("A".to_string()));
    manager.finish_task("B").unwrap();
    assert_eq!(manager.get_first_task(), Ok("A".to_string()));
    manager.finish_task("A").unwrap();
    assert_eq!(manager.get_first_task(), Ok("C".to_string()));
    assert_eq!(
        manager.start(),
        line("[{\"name\":\"C\",\"status\":\"running\"}]")
    );
    manager.add_task(Task::new("D")).unwrap();
    assert_eq!(manager.get_first_task(), Ok("C".to_string()));
    manager.finish().unwrap();
    assert_eq!(manager.get_first_task(), Ok("D".to_string()));
}

#[test]
fn stale_name_is_met_again_when_registered_before_the_next_lookup() {
    let mut manager = TaskManager::new();
    manager.add_task(Task::new("A")).unwrap();
    manager.add_task(Task::new("B")).unwrap();
    manager.finish_task("A").unwrap();
    manager.add_task(Task::new("A")).unwrap();
    assert_eq!(manager.get_first_task(), Ok("A".to_string()));
}

#[test]
fn stale_name_is_dropped_by_a_lookup() {
    let mut manager = TaskManager::new();
    manager.add_task(Task::new("A")).unwrap();
    manager.add_task(Task::new("B")).unwrap();
    manager.finish_task("A").unwrap();
    assert_eq!(manager.get_first_task(), Ok("B".to_string()));
    manager.add_task(Task::new("A")).unwrap();
    assert_eq!(manager.get_first_task(), Ok("B".to_string()));
    manager.finish().unwrap();
    assert_eq!(manager.get_first_task(), Ok("A".to_string()));
}

#[test]
fn silent_manager_emits_nothing() {
    let mut manager = TaskManager::new_silent();
    manager.add_task(Task::new("quiet").total(1)).unwrap();
    assert_eq!(manager.snapshot(), None);
    assert_eq!(manager.start(), Ok(None));
    assert_eq!(manager.increment(1), Ok(None));
    assert_eq!(manager.increment(1), Err(InterprogError::TaskAlreadyFinished));
    assert_eq!(manager.finish(), Ok(None));
    assert_eq!(manager.finish(), Err(InterprogError::NonexistentTask));
}

#[test]
fn default_manager_is_empty_and_emits() {
    let mut manager = TaskManager::default();
    assert_eq!(manager.snapshot(), Some("[]".to_string()));
    assert_eq!(manager.start(), Err(InterprogError::NonexistentTask));
}

#[test]
fn task_can_be_changed_in_place() {
    let mut manager = TaskManager::new();
    manager.add_task(Task::new("job")).unwrap();
    manager.add_task(Task::new("other")).unwrap();
    {
        let task = manager.get_task("job").unwrap();
        assert_eq!(*task, Task::new("job"));
        task.progress = Status::InProgress { done: 1, total: 9 };
        task.name = "shown".to_string();
    }
    assert_eq!(
        manager.snapshot(),
        Some(
            "[{\"name\":\"shown\",\"status\":\"in_progress\",\"done\":1,\"total\":9},\
             {\"name\":\"other\",\"status\":\"pending\",\"total\":null}]"
                .to_string()
        )
    );
    assert_eq!(
        manager.get_task("shown").err(),
        Some(InterprogError::NonexistentTask)
    );
    assert_eq!(
        manager.add_task(Task::new("job")),
        Err(InterprogError::TaskAlreadyExists)
    );
    assert_eq!(
        manager.increment_task("job", 2),
        line(
            "[{\"name\":\"shown\",\"status\":\"in_progress\",\"done\":3,\"total\":9},\
             {\"name\":\"other\",\"status\":\"pending\",\"total\":null}]"
        )
    );
}

#[test]
fn failed_operation_changes_nothing() {
    let mut manager = TaskManager::new();
    manager.add_task(Task::new("spin")).unwrap();
    manager.add_task(Task::new("count").total(1)).unwrap();
    manager.start().unwrap();
    let before = manager.snapshot();
    assert!(manager.start_task("spin").is_err());
    assert!(manager.increment_task("spin", 1).is_err());
    assert!(manager.add_task(Task::new("count")).is_err());
    assert!(manager.finish_task("nobody").is_err());
    assert_eq!(manager.snapshot(), before);
}

#[test]
fn ended_task_takes_no_operation() {
    let mut manager = TaskManager::new();
    manager
        .add_task(Task {
            name: "over".to_string(),
            progress: Status::Finished,
        })
        .unwrap();
    manager
        .add_task(Task {
            name: "broken".to_string(),
            progress: Status::Error {
                message: "why".to_string(),
            },
        })
        .unwrap();
    for name in ["over", "broken"] {
        assert_eq!(
            manager.start_task(name),
            Err(InterprogError::TaskAlreadyFinished)
        );
        assert_eq!(
            manager.increment_task(name, 1),
            Err(InterprogError::TaskAlreadyFinished)
        );
        assert_eq!(
            manager.finish_task(name),
            Err(InterprogError::TaskAlreadyFinished)
        );
        assert_eq!(
            manager.error_task(name, "again"),
            Err(InterprogError::TaskAlreadyFinished)
        );
    }
    assert_eq!(manager.finish(), Err(InterprogError::TaskAlreadyFinished));
    assert_eq!(
        manager.snapshot(),
        Some(
            "[{\"name\":\"over\",\"status\":\"finished\"},\
             {\"name\":\"broken\",\"status\":\"error\",\"message\":\"why\"}]"
                .to_string()
        )
    );
}

#[test]
fn only_finished_and_error_are_terminal() {
    assert!(Status::Finished.is_terminal());
    assert!(Status::Error {
        message: String::new()
    }
    .is_terminal());
    assert!(!Status::Running.is_terminal());
    assert!(!Status::Pending { total: None }.is_terminal());
    assert!(!Status::Pending { total: Some(1) }.is_terminal());
    assert!(!Status::InProgress { done: 5, total: 1 }.is_terminal());
}
