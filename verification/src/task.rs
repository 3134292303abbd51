use vstd::prelude::*;

use crate::date::{Date, DateView};

verus! {

/// The mathematical value of a task.
pub ghost struct TaskView {
    pub description: Seq<char>,
    pub completed: bool,
    pub due: Option<DateView>,
}

/// One to-do item: a description, a completion flag, an optional due date.
#[derive(Debug)]
pub struct Task {
    pub description: String,
    pub completed: bool,
    pub due_date: Option<Date>,
}

impl View for Task {
    type V = TaskView;

    open spec fn view(&self) -> TaskView {
        TaskView {
            description: self.description@,
            completed: self.completed,
            due: self.due_date.deep_view(),
        }
    }
}

impl DeepView for Task {
    type V = TaskView;

    open spec fn deep_view(&self) -> TaskView {
        self.view()
    }
}

impl Clone for Task {
    fn clone(&self) -> (r: Self)
        ensures
            r@ == self@,
    {
        Task {
            description: self.description.clone(),
            completed: self.completed,
            due_date: self.due_date,
        }
    }
}

impl Task {
    /// A fresh task starts uncompleted.
    pub fn new(description: String, due_date: Option<Date>) -> (r: Task)
        ensures
            r@ == (TaskView {
                description: description@,
                completed: false,
                due: due_date.deep_view(),
            }),
    {
        Task { description, completed: false, due_date }
    }

    /// Sets the completion flag; no other field changes.
    pub fn mark_completed(&mut self)
        ensures
            final(self)@ == (TaskView { completed: true, ..old(self)@ }),
    {
        self.completed = true;
    }
}

} // verus!
