//! Inter-process progress reports.
//!
//! A producer registers named tasks with a [`TaskManager`] and moves them through their
//! states. Every successful change of state yields one line of JSON that lists the tasks
//! still active, for a cooperating process to read.
pub mod errors;
pub mod laws;
pub mod manager;
pub mod model;
pub mod task;
pub mod wire;

pub use crate::errors::InterprogError;
pub use crate::manager::TaskManager;
pub use crate::model::ManagerView;
pub use crate::task::{Status, StatusView, Task, TaskView};
