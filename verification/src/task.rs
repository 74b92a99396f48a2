//! A task as it stands on one line of todo.txt, and its mathematical model.

use vstd::prelude::*;
use crate::status::TaskStatus;

verus! {

/// One task of the board.
#[derive(Clone, Debug, PartialEq, Eq)]
pub struct DevTask {
    pub id: u32,
    pub priority: Option<char>,
    pub is_completed: bool,
    pub completion_date: Option<String>,
    pub creation_date: String,
    pub description: String,
    pub project: Option<String>,
    pub status: TaskStatus,
    pub due_date: Option<String>,
    pub parent_id: Option<u32>,
    pub line_number: usize,
}

/// The model of a task: its fields, with each string taken as its characters.
pub struct TaskModel {
    pub id: u32,
    pub priority: Option<char>,
    pub is_completed: bool,
    pub completion_date: Option<Seq<char>>,
    pub creation_date: Seq<char>,
    pub description: Seq<char>,
    pub project: Option<Seq<char>>,
    pub status: TaskStatus,
    pub due_date: Option<Seq<char>>,
    pub parent_id: Option<u32>,
    pub line_number: usize,
}

/// The characters of an optional string.
pub open spec fn opt_chars(o: Option<String>) -> Option<Seq<char>> {
    match o {
        Some(s) => Some(s@),
        None => None,
    }
}

/// The characters of an optional character vector.
pub open spec fn opt_vec(o: Option<Vec<char>>) -> Option<Seq<char>> {
    match o {
        Some(v) => Some(v@),
        None => None,
    }
}

impl View for DevTask {
    type V = TaskModel;

    open spec fn view(&self) -> TaskModel {
        TaskModel {
            id: self.id,
            priority: self.priority,
            is_completed: self.is_completed,
            completion_date: opt_chars(self.completion_date),
            creation_date: self.creation_date@,
            description: self.description@,
            project: opt_chars(self.project),
            status: self.status,
            due_date: opt_chars(self.due_date),
            parent_id: self.parent_id,
            line_number: self.line_number,
        }
    }
}

/// The models of a sequence of tasks.
pub open spec fn task_models(ts: Seq<DevTask>) -> Seq<TaskModel> {
    Seq::new(ts.len(), |i: int| ts[i]@)
}

} // verus!
