//! `update <id>`: asks for a new title for the task with the given number.

use crate::manager::TaskManager;
use crate::model::{contains_id, well_formed, with_title};
use crate::task::TaskView;
use crate::text::{all_whitespace, lemma_trimmed_empty, parse_u32, parsed_u32, trim, trimmed};
use vstd::prelude::*;

verus! {

/// What an `update` command does first.
#[derive(Debug, Clone, Copy, PartialEq, Eq, Structural)]
pub enum UpdateRequest {
    /// No number was given.
    MissingId,
    /// What was given is not a number.
    InvalidId,
    /// No task carries the given number.
    NotFound(u32),
    /// The task with the given number exists: ask for its new title.
    Prompt(u32),
}

/// How an `update` command ended, once a reply to the prompt was read.
#[derive(Debug, Clone, Copy, PartialEq, Eq, Structural)]
pub enum UpdateOutcome {
    /// The reply held nothing but white space; the list is as it was.
    Skipped,
    /// The task carries the new title.
    Updated,
    /// No task carries the number; the list is as it was.
    NotFound,
}

/// What an `update` command with the arguments `args` does first on the
/// list `s`.
pub open spec fn request_of(s: Seq<TaskView>, args: Seq<String>) -> UpdateRequest {
    if args.len() == 0 {
        UpdateRequest::MissingId
    } else {
        match parsed_u32(args[0]@) {
            None => UpdateRequest::InvalidId,
            Some(id) => if contains_id(s, id as nat) {
                UpdateRequest::Prompt(id)
            } else {
                UpdateRequest::NotFound(id)
            },
        }
    }
}

/// How an `update` of the task numbered `id` ends on the list `s` when the
/// reply to the prompt is `reply`.
pub open spec fn outcome_of(s: Seq<TaskView>, id: nat, reply: Seq<char>) -> UpdateOutcome {
    if trimmed(reply).len() == 0 {
        UpdateOutcome::Skipped
    } else if contains_id(s, id) {
        UpdateOutcome::Updated
    } else {
        UpdateOutcome::NotFound
    }
}

/// A reply of white space alone is skipped, whatever the list holds and
/// whichever number was named.
pub proof fn lemma_blank_reply_is_skipped(s: Seq<TaskView>, id: nat, reply: Seq<char>)
    ensures
        all_whitespace(reply) <==> outcome_of(s, id, reply) == UpdateOutcome::Skipped,
{
    lemma_trimmed_empty(reply);
}

/// Decides whether to ask for a new title: only for a number that is given,
/// reads as one, and is carried by a task.
pub fn begin(manager: &TaskManager, args: &[String]) -> (request: UpdateRequest)
    ensures
        request == request_of(manager@, args@),
{
    if args.len() < 1 {
        return UpdateRequest::MissingId;
    }
    match parse_u32(args[0].as_str()) {
        Some(id) => match manager.position(id) {
            Some(_) => UpdateRequest::Prompt(id),
            None => UpdateRequest::NotFound(id),
        },
        None => UpdateRequest::InvalidId,
    }
}

/// Gives the task numbered `id` the title that `reply` holds between the
/// white space at its ends. A reply of white space alone never reaches the
/// list.
pub fn run(manager: &mut TaskManager, id: u32, reply: &str) -> (outcome: UpdateOutcome)
    ensures
        outcome == outcome_of(old(manager)@, id as nat, reply@),
        final(manager)@ == (match outcome {
            UpdateOutcome::Updated => with_title(old(manager)@, id as nat, trimmed(reply@)),
            _ => old(manager)@,
        }),
        outcome == UpdateOutcome::Skipped ==> final(manager).tasks@ == old(manager).tasks@,
        well_formed(old(manager)@) ==> well_formed(final(manager)@),
{
    let new_title = trim(reply);
    if new_title.is_empty() {
        return UpdateOutcome::Skipped;
    }
    if manager.update_task(id, new_title) {
        UpdateOutcome::Updated
    } else {
        UpdateOutcome::NotFound
    }
}

} // verus!
