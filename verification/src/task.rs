//! One task and the mathematical value that stands for it in contracts.

use vstd::prelude::*;

verus! {

/// One unit of work.
#[derive(Debug)]
pub struct Task {
    pub id: u32,
    pub title: String,
    pub completed: bool,
}

/// What a `Task` is in specifications: its number, the characters of its
/// title, and whether it has been completed.
pub struct TaskView {
    pub id: nat,
    pub title: Seq<char>,
    pub completed: bool,
}

impl View for Task {
    type V = TaskView;

    open spec fn view(&self) -> TaskView {
        TaskView { id: self.id as nat, title: self.title@, completed: self.completed }
    }
}

} // verus!
