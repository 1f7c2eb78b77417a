//! `done <id>`: completes the task with the given number.

use crate::manager::TaskManager;
use crate::model::{contains_id, well_formed, with_done};
use crate::task::TaskView;
use crate::text::{parse_u32, parsed_u32};
use vstd::prelude::*;

verus! {

/// How a `done` command ended.
#[derive(Debug, Clone, Copy, PartialEq, Eq, Structural)]
pub enum DoneOutcome {
    /// No number was given.
    MissingId,
    /// What was given is not a number.
    InvalidId,
    /// No task carries the given number.
    NotFound(u32),
    /// The task with the given number is completed now.
    Done(u32),
}

/// How a `done` command with the arguments `args` ends on the list `s`.
pub open spec fn outcome_of(s: Seq<TaskView>, args: Seq<String>) -> DoneOutcome {
    if args.len() == 0 {
        DoneOutcome::MissingId
    } else {
        match parsed_u32(args[0]@) {
            None => DoneOutcome::InvalidId,
            Some(id) => if contains_id(s, id as nat) {
                DoneOutcome::Done(id)
            } else {
                DoneOutcome::NotFound(id)
            },
        }
    }
}

/// Completes the task whose number is the first of `args`. The list changes
/// only where the outcome is `Done`.
pub fn run(manager: &mut TaskManager, args: &[String]) -> (outcome: DoneOutcome)
    ensures
        outcome == outcome_of(old(manager)@, args@),
        final(manager)@ == (match outcome {
            DoneOutcome::Done(id) => with_done(old(manager)@, id as nat),
            _ => old(manager)@,
        }),
        well_formed(old(manager)@) ==> well_formed(final(manager)@),
{
    if args.len() < 1 {
        return DoneOutcome::MissingId;
    }
    match parse_u32(args[0].as_str()) {
        Some(id) => {
            if manager.mark_done(id) {
                DoneOutcome::Done(id)
            } else {
                DoneOutcome::NotFound(id)
            }
        },
        None => DoneOutcome::InvalidId,
    }
}

} // verus!
