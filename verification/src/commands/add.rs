//! `add <words...>`: a new task titled with the given words.

use crate::manager::TaskManager;
use crate::model::{max_id, well_formed, with_added};
use crate::text::{join_words, joined};
use vstd::prelude::*;

verus! {

/// How an `add` command ended.
#[derive(Debug, Clone, Copy, PartialEq, Eq, Structural)]
pub enum AddOutcome {
    /// No word was given; the list is as it was.
    MissingTitle,
    /// A task was added.
    Added,
}

/// The title that the words of an `add` command make: the words in order,
/// one space between each two.
pub open spec fn title_of(words: Seq<String>) -> Seq<char> {
    joined(words.map_values(|w: String| w@), seq![' '])
}

/// Adds a task titled with `args` joined by single spaces. Without any word
/// nothing is added.
pub fn run(manager: &mut TaskManager, args: &[String]) -> (outcome: AddOutcome)
    requires
        args@.len() > 0 ==> max_id(old(manager)@) < u32::MAX,
    ensures
        args@.len() == 0 ==> outcome == AddOutcome::MissingTitle && final(manager)@ == old(
            manager,
        )@,
        args@.len() > 0 ==> outcome == AddOutcome::Added && final(manager)@ == with_added(
            old(manager)@,
            title_of(args@),
        ),
        well_formed(old(manager)@) ==> well_formed(final(manager)@),
{
    if args.len() == 0 {
        return AddOutcome::MissingTitle;
    }
    let title = join_words(args);
    manager.add_task(title.as_str());
    AddOutcome::Added
}

} // verus!
