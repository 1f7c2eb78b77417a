use task_store::commands::add::{self, AddOutcome};
use task_store::commands::done::{self, DoneOutcome};
use task_store::commands::update::{self, UpdateOutcome, UpdateRequest};
use task_store::manager::TaskManager;
use task_store::task::Task;

fn words(items: &[&str]) -> Vec<String> {
    items.iter().map(|w| w.to_string()).collect()
}

fn two_tasks() -> TaskManager {
    TaskManager {
        tasks: vec![
            Task {
                id: 1,
                title: "Write tests".into(),
                completed: false,
            },
            Task {
                id: 2,
                title: "Review PR".into(),
                completed: false,
            },
        ],
    }
}

#[test]
fn add_joins_the_words_into_the_title() {
    let mut manager = TaskManager::new();
    let outcome = add::run(&mut manager, &words(&["Write", "more", "tests"]));
    assert_eq!(outcome, AddOutcome::Added);
    assert_eq!(manager.tasks.len(), 1);
    assert_eq!(manager.tasks[0].id, 1);
    assert_eq!(manager.tasks[0].title, "Write more tests");
    assert!(!manager.tasks[0].completed);
}

#[test]
fn add_without_words_leaves_the_list_alone() {
    let mut manager = two_tasks();
    let outcome = add::run(&mut manager, &[]);
    assert_eq!(outcome, AddOutcome::MissingTitle);
    assert_eq!(manager.format_tasks(), "[ ] 1: Write tests\n[ ] 2: Review PR");
}

#[test]
fn add_numbers_after_the_tasks_in_the_list() {
    let mut manager = two_tasks();
    let outcome = add::run(&mut manager, &words(&["third"]));
    assert_eq!(outcome, AddOutcome::Added);
    assert_eq!(
        manager.format_tasks(),
        "[ ] 1: Write tests\n[ ] 2: Review PR\n[ ] 3: third"
    );
}

#[test]
fn done_completes_the_named_task() {
    let mut manager = two_tasks();
    let outcome = done::run(&mut manager, &words(&["2"]));
    assert_eq!(outcome, DoneOutcome::Done(2));
    assert!(!manager.tasks[0].completed);
    assert!(manager.tasks[1].completed);
}

#[test]
fn done_reads_only_its_first_argument() {
    let mut manager = two_tasks();
    let outcome = done::run(&mut manager, &words(&["1", "2", "junk"]));
    assert_eq!(outcome, DoneOutcome::Done(1));
    assert!(manager.tasks[0].completed);
    assert!(!manager.tasks[1].completed);
}

#[test]
fn done_without_a_number() {
    let mut manager = two_tasks();
    assert_eq!(done::run(&mut manager, &[]), DoneOutcome::MissingId);
    assert_eq!(manager.format_tasks(), "[ ] 1: Write tests\n[ ] 2: Review PR");
}

#[test]
fn done_with_what_is_no_number() {
    let mut manager = two_tasks();
    for arg in ["one", "-1", "", "1.5", " 1", "4294967296"] {
        assert_eq!(
            done::run(&mut manager, &words(&[arg])),
            DoneOutcome::InvalidId,
            "argument {:?}",
            arg
        );
    }
    assert_eq!(manager.format_tasks(), "[ ] 1: Write tests\n[ ] 2: Review PR");
}

#[test]
fn done_with_a_number_that_no_task_carries() {
    let mut manager = two_tasks();
    assert_eq!(
        done::run(&mut manager, &words(&["99"])),
        DoneOutcome::NotFound(99)
    );
    assert_eq!(
        done::run(&mut manager, &words(&["0"])),
        DoneOutcome::NotFound(0)
    );
    assert_eq!(manager.format_tasks(), "[ ] 1: Write tests\n[ ] 2: Review PR");
}

#[test]
fn update_asks_for_a_title_when_the_task_exists() {
    let manager = two_tasks();
    assert_eq!(
        update::begin(&manager, &words(&["2"])),
        UpdateRequest::Prompt(2)
    );
    assert_eq!(
        update::begin(&manager, &words(&["+1", "ignored"])),
        UpdateRequest::Prompt(1)
    );
}

#[test]
fn update_does_not_ask_without_a_task_to_update() {
    let manager = two_tasks();
    assert_eq!(update::begin(&manager, &[]), UpdateRequest::MissingId);
    assert_eq!(
        update::begin(&manager, &words(&["two"])),
        UpdateRequest::InvalidId
    );
    assert_eq!(
        update::begin(&manager, &words(&["3"])),
        UpdateRequest::NotFound(3)
    );
    assert_eq!(
        update::begin(&TaskManager::new(), &words(&["1"])),
        UpdateRequest::NotFound(1)
    );
}

#[test]
fn update_takes_the_reply_without_the_white_space_around_it() {
    let mut manager = two_tasks();
    let outcome = update::run(&mut manager, 1, "  Write better tests \n");
    assert_eq!(outcome, UpdateOutcome::Updated);
    assert_eq!(manager.tasks[0].title, "Write better tests");
    assert_eq!(manager.tasks[0].id, 1);
    assert!(!manager.tasks[0].completed);
    assert_eq!(manager.tasks[1].title, "Review PR");
}

#[test]
fn update_with_an_empty_reply_never_reaches_the_list() {
    for reply in ["", "\n", "   ", " \t \r\n", "\u{3000}\u{a0}"] {
        let mut manager = two_tasks();
        let outcome = update::run(&mut manager, 1, reply);
        assert_eq!(outcome, UpdateOutcome::Skipped, "reply {:?}", reply);
        assert_eq!(manager.tasks.len(), 2);
        assert_eq!(manager.tasks[0].title, "Write tests");
        assert_eq!(manager.tasks[1].title, "Review PR");
    }
}

#[test]
fn update_with_an_empty_reply_is_skipped_even_for_a_missing_task() {
    let mut manager = two_tasks();
    assert_eq!(update::run(&mut manager, 99, " \n"), UpdateOutcome::Skipped);
}

#[test]
fn update_of_a_task_that_is_gone() {
    let mut manager = two_tasks();
    let outcome = update::run(&mut manager, 99, "new title\n");
    assert_eq!(outcome, UpdateOutcome::NotFound);
    assert_eq!(manager.format_tasks(), "[ ] 1: Write tests\n[ ] 2: Review PR");
}

#[test]
fn update_keeps_a_completed_task_completed() {
    let mut manager = two_tasks();
    assert!(manager.mark_done(2));
    assert_eq!(
        update::run(&mut manager, 2, "Review the PR\n"),
        UpdateOutcome::Updated
    );
    assert_eq!(
        manager.format_tasks(),
        "[ ] 1: Write tests\n[x] 2: Review the PR"
    );
}
