//! The task list as a mathematical sequence: what each operation makes of it,
//! and the laws that the operations obey.

use crate::task::TaskView;
use crate::text::{decimal, joined};
use vstd::prelude::*;

verus! {

/// Whether some task of `s` carries the number `id`.
pub open spec fn contains_id(s: Seq<TaskView>, id: nat) -> bool {
    exists|i: int| 0 <= i < s.len() && s[i].id == id
}

/// Whether `i` is the position of the first task of `s` numbered `id`.
pub open spec fn is_first_with_id(s: Seq<TaskView>, id: nat, i: int) -> bool {
    &&& 0 <= i < s.len()
    &&& s[i].id == id
    &&& forall|j: int| 0 <= j < i ==> s[j].id != id
}

/// The position of the first task of `s` numbered `id`, where there is one.
pub open spec fn first_with_id(s: Seq<TaskView>, id: nat) -> int {
    choose|i: int| is_first_with_id(s, id, i)
}

/// The largest number carried by a task of `s`, or 0 for the empty list.
pub open spec fn max_id(s: Seq<TaskView>) -> nat
    decreases s.len(),
{
    if s.len() == 0 {
        0
    } else if s.last().id > max_id(s.drop_last()) {
        s.last().id
    } else {
        max_id(s.drop_last())
    }
}

/// The list `s` followed by a new, open task titled `title`, numbered one
/// above the largest number in `s`.
pub open spec fn with_added(s: Seq<TaskView>, title: Seq<char>) -> Seq<TaskView> {
    s.push(TaskView { id: max_id(s) + 1, title, completed: false })
}

/// The list `s` with its first task numbered `id` completed; `s` itself where
/// no task carries that number.
pub open spec fn with_done(s: Seq<TaskView>, id: nat) -> Seq<TaskView> {
    Seq::new(
        s.len(),
        |i: int|
            if is_first_with_id(s, id, i) {
                TaskView { completed: true, ..s[i] }
            } else {
                s[i]
            },
    )
}

/// The list `s` with its first task numbered `id` retitled `title`; `s` itself
/// where no task carries that number.
pub open spec fn with_title(s: Seq<TaskView>, id: nat, title: Seq<char>) -> Seq<TaskView> {
    Seq::new(
        s.len(),
        |i: int|
            if is_first_with_id(s, id, i) {
                TaskView { title, ..s[i] }
            } else {
                s[i]
            },
    )
}

/// Whether `s` is a list as this library builds it: every number is positive
/// and no number occurs twice.
pub open spec fn well_formed(s: Seq<TaskView>) -> bool {
    &&& forall|i: int| 0 <= i < s.len() ==> s[i].id >= 1
    &&& forall|i: int, j: int| 0 <= i < j < s.len() ==> s[i].id != s[j].id
}

/// The list that grows from the empty one when a task is added for each title
/// of `titles` in turn.
pub open spec fn added_in_turn(titles: Seq<Seq<char>>) -> Seq<TaskView>
    decreases titles.len(),
{
    if titles.len() == 0 {
        Seq::empty()
    } else {
        with_added(added_in_turn(titles.drop_last()), titles.last())
    }
}

/// One change that the list's operations make: a task added under a title,
/// the task of a number completed, or the task of a number retitled.
pub enum Change {
    Add(Seq<char>),
    Done(nat),
    Retitle(nat, Seq<char>),
}

/// The list `s` after the one change `change`.
pub open spec fn changed(s: Seq<TaskView>, change: Change) -> Seq<TaskView> {
    match change {
        Change::Add(title) => with_added(s, title),
        Change::Done(id) => with_done(s, id),
        Change::Retitle(id, title) => with_title(s, id, title),
    }
}

/// The list `s` after the changes of `changes`, made one after the other.
pub open spec fn changed_by_all(s: Seq<TaskView>, changes: Seq<Change>) -> Seq<TaskView>
    decreases changes.len(),
{
    if changes.len() == 0 {
        s
    } else {
        changed(changed_by_all(s, changes.drop_last()), changes.last())
    }
}

/// The line that shows one task: a box that is crossed once the task is
/// completed, the task's number in decimal, a colon and the title.
pub open spec fn line(t: TaskView) -> Seq<char> {
    let mark = if t.completed {
        seq!['[', 'x', ']', ' ']
    } else {
        seq!['[', ' ', ']', ' ']
    };
    mark + decimal(t.id) + seq![':', ' '] + t.title
}

/// The text that shows the whole list: one line for each task, in order,
/// with a line feed between each two lines and none at the end.
pub open spec fn listing(s: Seq<TaskView>) -> Seq<char> {
    joined(s.map_values(|t: TaskView| line(t)), seq!['\n'])
}

/// A task numbered `id` has exactly one first position, and `first_with_id`
/// names it.
pub proof fn lemma_first_with_id(s: Seq<TaskView>, id: nat, i: int)
    requires
        is_first_with_id(s, id, i),
    ensures
        contains_id(s, id),
        first_with_id(s, id) == i,
{
    let k = first_with_id(s, id);
    assert(is_first_with_id(s, id, k));
    if k < i {
        assert(s[k].id != id);
    } else if i < k {
        assert(s[i].id != id);
    }
}

/// A number that some task carries has a first task that carries it.
pub proof fn lemma_contains_has_first(s: Seq<TaskView>, id: nat, k: int)
    requires
        0 <= k < s.len(),
        s[k].id == id,
    ensures
        is_first_with_id(s, id, first_with_id(s, id)),
        first_with_id(s, id) <= k,
    decreases k,
{
    if exists|j: int| 0 <= j < k && s[j].id == id {
        let j = choose|j: int| 0 <= j < k && s[j].id == id;
        lemma_contains_has_first(s, id, j);
    } else {
        assert(is_first_with_id(s, id, k));
        lemma_first_with_id(s, id, k);
    }
}

/// No number in `s` is above `max_id(s)`, and in a list that is not empty
/// some task carries it.
pub proof fn lemma_max_id(s: Seq<TaskView>)
    ensures
        forall|i: int| 0 <= i < s.len() ==> s[i].id <= max_id(s),
        s.len() > 0 ==> exists|i: int| 0 <= i < s.len() && s[i].id == max_id(s),
    decreases s.len(),
{
    if s.len() > 0 {
        let rest = s.drop_last();
        lemma_max_id(rest);
        assert forall|i: int| 0 <= i < s.len() implies s[i].id <= max_id(s) by {
            if i < rest.len() {
                assert(rest[i] == s[i]);
            }
        }
        if s.last().id >= max_id(rest) {
            assert(s[s.len() - 1].id == max_id(s));
        } else {
            let k = choose|k: int| 0 <= k < rest.len() && rest[k].id == max_id(rest);
            assert(s[k].id == max_id(s));
        }
    }
}

/// In a well-formed list a number is carried by one task at most, so any
/// task that carries it is the first.
pub proof fn lemma_unique_position(s: Seq<TaskView>, id: nat, i: int)
    requires
        well_formed(s),
        0 <= i < s.len(),
        s[i].id == id,
    ensures
        is_first_with_id(s, id, i),
        first_with_id(s, id) == i,
{
    lemma_first_with_id(s, id, i);
}

/// Adding a task keeps a well-formed list well-formed: the new number is
/// positive and above every number in use.
pub proof fn lemma_with_added_well_formed(s: Seq<TaskView>, title: Seq<char>)
    requires
        well_formed(s),
    ensures
        well_formed(with_added(s, title)),
{
    lemma_max_id(s);
}

/// Completing a task changes no number and no title, creates and removes no
/// task, and never reopens a task.
pub proof fn lemma_with_done_keeps(s: Seq<TaskView>, id: nat)
    ensures
        with_done(s, id).len() == s.len(),
        forall|i: int|
            0 <= i < s.len() ==> {
                &&& (#[trigger] with_done(s, id)[i]).id == s[i].id
                &&& with_done(s, id)[i].title == s[i].title
                &&& s[i].completed ==> with_done(s, id)[i].completed
            },
        !contains_id(s, id) ==> with_done(s, id) == s,
        well_formed(s) ==> well_formed(with_done(s, id)),
{
    if !contains_id(s, id) {
        assert(with_done(s, id) =~= s);
    }
}

/// Completing a task a second time changes nothing.
pub proof fn lemma_with_done_twice(s: Seq<TaskView>, id: nat)
    ensures
        with_done(with_done(s, id), id) == with_done(s, id),
{
    let once = with_done(s, id);
    assert forall|i: int| is_first_with_id(once, id, i) == is_first_with_id(s, id, i) by {
        if 0 <= i < s.len() {
            assert(forall|j: int| 0 <= j < i ==> once[j].id == s[j].id);
        }
    }
    assert(with_done(once, id) =~= once);
}

/// Retitling a task changes no number and no completion, and creates and
/// removes no task.
pub proof fn lemma_with_title_keeps(s: Seq<TaskView>, id: nat, title: Seq<char>)
    ensures
        with_title(s, id, title).len() == s.len(),
        forall|i: int|
            0 <= i < s.len() ==> {
                &&& (#[trigger] with_title(s, id, title)[i]).id == s[i].id
                &&& with_title(s, id, title)[i].completed == s[i].completed
                &&& !is_first_with_id(s, id, i) ==> with_title(s, id, title)[i] == s[i]
            },
        !contains_id(s, id) ==> with_title(s, id, title) == s,
        well_formed(s) ==> well_formed(with_title(s, id, title)),
{
    if !contains_id(s, id) {
        assert(with_title(s, id, title) =~= s);
    }
}

/// Tasks added one after another to an empty list are numbered 1, 2, 3 and so
/// on in the order of the calls, each with its own title and none completed.
pub proof fn lemma_added_in_turn(titles: Seq<Seq<char>>)
    ensures
        added_in_turn(titles).len() == titles.len(),
        forall|i: int|
            0 <= i < titles.len() ==> #[trigger] added_in_turn(titles)[i] == (TaskView {
                id: (i + 1) as nat,
                title: titles[i],
                completed: false,
            }),
        max_id(added_in_turn(titles)) == titles.len(),
        well_formed(added_in_turn(titles)),
    decreases titles.len(),
{
    if titles.len() > 0 {
        let earlier = titles.drop_last();
        lemma_added_in_turn(earlier);
        let grown = added_in_turn(titles);
        assert(grown.drop_last() =~= added_in_turn(earlier));
    }
}

/// Whatever changes are made to a list, no task leaves it or moves, no task
/// changes its number, no completed task is reopened, and a well-formed list
/// stays well-formed.
pub proof fn lemma_changes_keep(s: Seq<TaskView>, changes: Seq<Change>)
    ensures
        changed_by_all(s, changes).len() >= s.len(),
        forall|i: int|
            0 <= i < s.len() ==> {
                &&& (#[trigger] changed_by_all(s, changes)[i]).id == s[i].id
                &&& s[i].completed ==> changed_by_all(s, changes)[i].completed
            },
        well_formed(s) ==> well_formed(changed_by_all(s, changes)),
    decreases changes.len(),
{
    if changes.len() > 0 {
        let before = changed_by_all(s, changes.drop_last());
        lemma_changes_keep(s, changes.drop_last());
        match changes.last() {
            Change::Add(title) => {
                if well_formed(before) {
                    lemma_with_added_well_formed(before, title);
                }
            },
            Change::Done(id) => {
                lemma_with_done_keeps(before, id);
            },
            Change::Retitle(id, title) => {
                lemma_with_title_keeps(before, id, title);
            },
        }
    }
}

/// Once a task has been completed, it stays completed, and keeps its place
/// and its number, whatever is done to the list afterwards: tasks added,
/// tasks of this or other numbers completed, tasks retitled.
pub proof fn lemma_done_stays_done(s: Seq<TaskView>, id: nat, later: Seq<Change>)
    requires
        contains_id(s, id),
    ensures
        ({
            let at = first_with_id(s, id);
            let after = changed_by_all(with_done(s, id), later);
            &&& 0 <= at < s.len() <= after.len()
            &&& after[at].id == id
            &&& after[at].completed
        }),
{
    let k = choose|k: int| 0 <= k < s.len() && s[k].id == id;
    lemma_contains_has_first(s, id, k);
    lemma_with_done_keeps(s, id);
    lemma_changes_keep(with_done(s, id), later);
}

} // verus!
