//! The task list itself: an ordered sequence of tasks and the operations on it.

use crate::model::{
    contains_id, first_with_id, is_first_with_id, lemma_first_with_id,
    lemma_with_added_well_formed, lemma_with_done_keeps, lemma_with_title_keeps, line, listing,
    max_id, well_formed, with_added, with_done, with_title,
};
use crate::task::{Task, TaskView};
use crate::text::push_decimal;
use vstd::prelude::*;
use vstd::string::StringExecFns;

verus! {

/// The tasks of one list, in the order in which they were added.
pub struct TaskManager {
    pub tasks: Vec<Task>,
}

/// What was found in the place where a list is kept between two runs.
pub enum Stored {
    /// Nothing is kept there yet.
    Absent,
    /// Something is kept there that does not read as a list of tasks.
    Unreadable,
    /// The tasks kept there, in their order.
    Tasks(Vec<Task>),
}

impl View for TaskManager {
    type V = Seq<TaskView>;

    open spec fn view(&self) -> Seq<TaskView> {
        self.tasks@.map_values(|t: Task| t@)
    }
}

impl TaskManager {
    /// The list without tasks.
    pub fn new() -> (manager: TaskManager)
        ensures
            manager.tasks@ == Seq::<Task>::empty(),
            manager@ == Seq::<TaskView>::empty(),
            well_formed(manager@),
    {
        let manager = TaskManager { tasks: Vec::new() };
        assert(manager@ =~= Seq::<TaskView>::empty());
        manager
    }

    /// The list to work on, given what storage held: the stored tasks as they
    /// are, and the empty list where storage held nothing or nothing readable.
    pub fn from_stored(stored: Stored) -> (manager: TaskManager)
        ensures
            manager.tasks@ == (match stored {
                Stored::Tasks(tasks) => tasks@,
                Stored::Absent | Stored::Unreadable => Seq::<Task>::empty(),
            }),
    {
        match stored {
            Stored::Tasks(tasks) => TaskManager { tasks },
            Stored::Absent | Stored::Unreadable => TaskManager::new(),
        }
    }

    /// The largest number in use, or 0 when the list is empty.
    pub fn max_id(&self) -> (largest: u32)
        ensures
            largest as nat == max_id(self@),
    {
        let mut largest: u32 = 0;
        let mut i: usize = 0;
        while i < self.tasks.len()
            invariant
                i <= self.tasks.len(),
                largest as nat == max_id(self@.take(i as int)),
            decreases self.tasks.len() - i,
        {
            proof {
                assert(self@.take(i + 1).drop_last() =~= self@.take(i as int));
            }
            if self.tasks[i].id > largest {
                largest = self.tasks[i].id;
            }
            i += 1;
        }
        proof {
            assert(self@.take(i as int) =~= self@);
        }
        largest
    }

    /// Appends a new, open task titled `title` under the next free number.
    pub fn add_task(&mut self, title: &str)
        requires
            max_id(old(self)@) < u32::MAX,
        ensures
            final(self)@ == with_added(old(self)@, title@),
            well_formed(old(self)@) ==> well_formed(final(self)@),
    {
        let id: u32 = self.max_id() + 1;
        let task = Task { id, title: title.to_owned(), completed: false };
        self.tasks.push(task);
        proof {
            assert(self@ =~= with_added(old(self)@, title@));
            if well_formed(old(self)@) {
                lemma_with_added_well_formed(old(self)@, title@);
            }
        }
    }

    /// Renders the list as text, one line for each task.
    pub fn format_tasks(&self) -> (text: String)
        ensures
            text@ == listing(self@),
    {
        let mut text = String::new();
        let mut i: usize = 0;
        while i < self.tasks.len()
            invariant
                i <= self.tasks.len(),
                text@ == listing(self@.take(i as int)),
            decreases self.tasks.len() - i,
        {
            let ghost before = text@;
            let task = &self.tasks[i];
            if i > 0 {
                text.append("\n");
            }
            if task.completed {
                text.append("[x] ");
            } else {
                text.append("[ ] ");
            }
            push_decimal(&mut text, task.id);
            text.append(": ");
            text.append(task.title.as_str());
            proof {
                reveal_strlit("\n");
                reveal_strlit("[x] ");
                reveal_strlit("[ ] ");
                reveal_strlit(": ");
                let shown = self@.take(i + 1).map_values(|t: TaskView| line(t));
                assert(shown.drop_last() =~= self@.take(i as int).map_values(
                    |t: TaskView| line(t),
                ));
                assert(shown.last() == line(task@));
                let sep = if i > 0 {
                    seq!['\n']
                } else {
                    Seq::<char>::empty()
                };
                assert(text@ =~= before + sep + line(task@));
            }
            i += 1;
        }
        proof {
            assert(self@.take(i as int) =~= self@);
        }
        text
    }

    /// The position of the first task numbered `id`, if there is one.
    pub fn position(&self, id: u32) -> (at: Option<usize>)
        ensures
            match at {
                Some(i) => {
                    &&& contains_id(self@, id as nat)
                    &&& is_first_with_id(self@, id as nat, i as int)
                    &&& i as int == first_with_id(self@, id as nat)
                },
                None => !contains_id(self@, id as nat),
            },
    {
        let mut i: usize = 0;
        while i < self.tasks.len()
            invariant
                i <= self.tasks.len(),
                forall|j: int| 0 <= j < i ==> self@[j].id != id as nat,
            decreases self.tasks.len() - i,
        {
            if self.tasks[i].id == id {
                proof {
                    lemma_first_with_id(self@, id as nat, i as int);
                }
                return Some(i);
            }
            i += 1;
        }
        None
    }

    /// Completes the first task numbered `id` and reports whether there was
    /// one; a list without such a task is left as it is.
    pub fn mark_done(&mut self, id: u32) -> (found: bool)
        ensures
            found == contains_id(old(self)@, id as nat),
            final(self)@ == with_done(old(self)@, id as nat),
            found ==> final(self)@[first_with_id(old(self)@, id as nat)].completed,
            !found ==> final(self)@ == old(self)@,
            well_formed(old(self)@) ==> well_formed(final(self)@),
    {
        proof {
            lemma_with_done_keeps(old(self)@, id as nat);
        }
        match self.position(id) {
            Some(i) => {
                self.tasks[i].completed = true;
                proof {
                    assert(self@ =~= with_done(old(self)@, id as nat));
                }
                true
            },
            None => {
                proof {
                    assert(self@ =~= with_done(old(self)@, id as nat));
                }
                false
            },
        }
    }

    /// Lends out the first task numbered `id` for inspection and change, if
    /// there is one. Whatever the borrower leaves in it takes that task's place
    /// in the list; nothing else moves.
    pub fn get_task_mut(&mut self, id: u32) -> (found: Option<&mut Task>)
        ensures
            match found {
                Some(task) => {
                    let at = first_with_id(old(self)@, id as nat);
                    &&& is_first_with_id(old(self)@, id as nat, at)
                    &&& *task == old(self).tasks@[at]
                    &&& final(self).tasks@ == old(self).tasks@.update(at, *final(task))
                },
                None => {
                    &&& !contains_id(old(self)@, id as nat)
                    &&& final(self).tasks@ == old(self).tasks@
                },
            },
    {
        match self.position(id) {
            Some(i) => Some(&mut self.tasks[i]),
            None => None,
        }
    }

    /// Retitles the first task numbered `id` and reports whether there was
    /// one; its number and completion stay as they were.
    pub fn update_task(&mut self, id: u32, new_title: &str) -> (found: bool)
        ensures
            found == contains_id(old(self)@, id as nat),
            final(self)@ == with_title(old(self)@, id as nat, new_title@),
            found ==> ({
                let at = first_with_id(old(self)@, id as nat);
                &&& final(self)@[at].title == new_title@
                &&& final(self)@[at].id == id as nat
                &&& final(self)@[at].completed == old(self)@[at].completed
            }),
            !found ==> final(self)@ == old(self)@,
            well_formed(old(self)@) ==> well_formed(final(self)@),
    {
        proof {
            lemma_with_title_keeps(old(self)@, id as nat, new_title@);
        }
        if let Some(task) = self.get_task_mut(id) {
            task.title = new_title.to_owned();
            proof {
                assert(self@ =~= with_title(old(self)@, id as nat, new_title@));
            }
            true
        } else {
            proof {
                assert(self@ =~= with_title(old(self)@, id as nat, new_title@));
            }
            false
        }
    }
}

} // verus!
