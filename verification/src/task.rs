//! The task data model: a title and a completion flag.

use vstd::prelude::*;

verus! {

/// Mathematical model of a task: the title as a character sequence
/// and the completion flag.
pub ghost struct TaskView {
    pub title: Seq<char>,
    pub completed: bool,
}

/// One entry of the task list: a title and whether it is done.
pub struct Task {
    pub title: String,
    pub completed: bool,
}

impl View for Task {
    type V = TaskView;

    open spec fn view(&self) -> TaskView {
        TaskView { title: self.title@, completed: self.completed }
    }
}

impl DeepView for Task {
    type V = TaskView;

    open spec fn deep_view(&self) -> TaskView {
        self.view()
    }
}

impl Task {
    /// Builds a task with the given title, not yet completed.
    pub fn new(title: String) -> (t: Task)
        ensures
            t@.title == title@,
            t@.completed == false,
    {
        Task { title, completed: false }
    }
}

} // verus!
