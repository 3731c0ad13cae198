//! The text of snapshots, character by character.
use interprog::wire::{array, decimal, error_members, object};
use interprog::{InterprogError, Status, Task, TaskManager};

#[test]
fn decimal_writes_plain_digits() {
    assert_eq!(decimal(0), "0");
    assert_eq!(decimal(7), "7");
    assert_eq!(decimal(10), "10");
    assert_eq!(decimal(409), "409");
    assert_eq!(decimal(1234567890), "1234567890");
    assert_eq!(decimal(usize::MAX), usize::MAX.to_string());
}

#[test]
fn array_puts_commas_between_items() {
    assert_eq!(array(&vec![]), "[]");
    assert_eq!(array(&vec!["1".to_string()]), "[1]");
    assert_eq!(
        array(&vec!["1".to_string(), "{}".to_string(), "null".to_string()]),
        "[1,{},null]"
    );
}

#[test]
fn object_starts_with_the_name() {
    assert_eq!(
        object("\"n\"", "\"status\":\"running\""),
        "{\"name\":\"n\",\"status\":\"running\"}"
    );
}

#[test]
fn error_members_end_with_the_message() {
    assert_eq!(
        error_members("\"no\""),
        "\"status\":\"error\",\"message\":\"no\""
    );
}

#[test]
fn every_status_has_its_members() {
    assert_eq!(
        Status::Pending { total: None }.to_json_members(),
        "\"status\":\"pending\",\"total\":null"
    );
    assert_eq!(
        Status::Pending { total: Some(12) }.to_json_members(),
        "\"status\":\"pending\",\"total\":12"
    );
    assert_eq!(Status::Running.to_json_members(), "\"status\":\"running\"");
    assert_eq!(
        Status::InProgress { done: 3, total: 10 }.to_json_members(),
        "\"status\":\"in_progress\",\"done\":3,\"total\":10"
    );
    assert_eq!(Status::Finished.to_json_members(), "\"status\":\"finished\"");
    assert_eq!(
        Status::Error {
            message: "I died".to_string()
        }
        .to_json_members(),
        "\"status\":\"error\",\"message\":\"I died\""
    );
}

#[test]
fn task_object_holds_name_and_status() {
    assert_eq!(
        Task::new("Log in").to_json(),
        "{\"name\":\"Log in\",\"status\":\"pending\",\"total\":null}"
    );
    assert_eq!(
        Task::new("Do work").total(3).to_json(),
        "{\"name\":\"Do work\",\"status\":\"pending\",\"total\":3}"
    );
    assert_eq!(
        Task {
            name: "gone".to_string(),
            progress: Status::Finished
        }
        .to_json(),
        "{\"name\":\"gone\",\"status\":\"finished\"}"
    );
}

#[test]
fn names_and_messages_are_escaped() {
    assert_eq!(
        Task::new("say \"hi\"\\\n\tnow\u{1}").to_json(),
        "{\"name\":\"say \\\"hi\\\"\\\\\\n\\tnow\\u0001\",\"status\":\"pending\",\"total\":null}"
    );
    assert_eq!(
        Status::Error {
            message: "line\r\nbreak".to_string()
        }
        .to_json_members(),
        "\"status\":\"error\",\"message\":\"line\\r\\nbreak\""
    );
    assert_eq!(
        Task::new("caf\u{e9} \u{1f600}").to_json(),
        "{\"name\":\"caf\u{e9} \u{1f600}\",\"status\":\"pending\",\"total\":null}"
    );
}

#[test]
fn snapshot_is_json_that_a_consumer_can_read() {
    let mut manager = TaskManager::new();
    manager.add_task(Task::new("Log \"in\"")).unwrap();
    manager.add_task(Task::new("Do work").total(3)).unwrap();
    manager.add_task(Task::new("Wait").total(8)).unwrap();
    manager.start().unwrap();
    let text = manager.increment_task("Do work", 1).unwrap().unwrap();
    assert!(!text.contains('\n'));
    let value: serde_json::Value = serde_json::from_str(&text).unwrap();
    let tasks = value.as_array().unwrap();
    assert_eq!(tasks.len(), 3);
    assert_eq!(tasks[0]["name"].as_str(), Some("Log \"in\""));
    assert_eq!(tasks[0]["status"].as_str(), Some("running"));
    assert_eq!(tasks[0].as_object().unwrap().len(), 2);
    assert_eq!(tasks[1]["name"].as_str(), Some("Do work"));
    assert_eq!(tasks[1]["status"].as_str(), Some("in_progress"));
    assert_eq!(tasks[1]["done"].as_u64(), Some(1));
    assert_eq!(tasks[1]["total"].as_u64(), Some(3));
    assert_eq!(tasks[2]["status"].as_str(), Some("pending"));
    assert_eq!(tasks[2]["total"].as_u64(), Some(8));
}

#[test]
fn name_is_written_as_serde_json_writes_a_string() {
    for name in ["", "plain", "quote\"", "back\\slash", "\u{0}\u{1f}\u{7f}", "/slash"] {
        let expected = format!(
            "{{\"name\":{},\"status\":\"running\"}}",
            serde_json::to_string(name).unwrap()
        );
        let task = Task {
            name: name.to_string(),
            progress: Status::Running,
        };
        assert_eq!(task.to_json(), expected);
    }
}

#[test]
fn error_message_describes_the_error() {
    assert_eq!(
        InterprogError::TaskAlreadyStarted.message(),
        "Task has already been started/is running"
    );
    assert_eq!(
        InterprogError::NonexistentTask.message(),
        "The requested task does not exist"
    );
    assert_eq!(
        InterprogError::TaskAlreadyExists.message(),
        "Another task of the same name already exists"
    );
    assert_eq!(
        InterprogError::InvalidTaskType.message(),
        "The task is the wrong type for the requested operation"
    );
    assert_eq!(
        InterprogError::TaskAlreadyFinished.message(),
        "Task is already done"
    );
}

#[test]
fn task_builders_set_one_field_each() {
    assert_eq!(
        Task::new("n"),
        Task {
            name: "n".to_string(),
            progress: Status::Pending { total: None }
        }
    );
    assert_eq!(
        Task::new("n").total(4),
        Task {
            name: "n".to_string(),
            progress: Status::Pending { total: Some(4) }
        }
    );
    assert_eq!(
        Task::new("n").total(4).name("m"),
        Task {
            name: "m".to_string(),
            progress: Status::Pending { total: Some(4) }
        }
    );
    let running = Task {
        name: "r".to_string(),
        progress: Status::Running,
    };
    assert_eq!(
        running.total(0),
        Task {
            name: "r".to_string(),
            progress: Status::Pending { total: Some(0) }
        }
    );
    assert_eq!(Task::from("n".to_string()), Task::new("n"));
}
