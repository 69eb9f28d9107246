use vstd::prelude::*;

verus! {

/// The mathematical value of a task.
pub struct TaskView {
    pub id: usize,
    pub description: Seq<char>,
    pub completed: bool,
}

/// A single to-do entry.
#[derive(Debug, Clone, PartialEq, Eq)]
pub struct Task {
    pub id: usize,
    pub description: String,
    pub completed: bool,
}

impl View for Task {
    type V = TaskView;

    open spec fn view(&self) -> TaskView {
        TaskView { id: self.id, description: self.description@, completed: self.completed }
    }
}

impl Task {
    /// A pending task with the given id and description.
    pub fn new(id: usize, description: String) -> (r: Task)
        ensures
            r@ == (TaskView { id, description: description@, completed: false }),
    {
        Task { id, description, completed: false }
    }

    /// Marks the task as done; nothing else changes.
    pub fn complete(&mut self)
        ensures
            final(self)@ == (TaskView { completed: true, ..old(self)@ }),
    {
        self.completed = true;
    }

    /// A new task equal, field by field, to this one.
    pub fn duplicate(&self) -> (r: Task)
        ensures
            r@ == self@,
    {
        Task { id: self.id, description: self.description.clone(), completed: self.completed }
    }
}

} // verus!
