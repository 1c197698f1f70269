use markdone::document::{empty_document_lines, parse_document};
use markdone::engine::{add_task, get_next_id, get_tasks_in_sections, move_task_to_section};
use markdone::error::DocError;
use markdone::status::TaskStatus;

fn s(text: &str) -> String {
    String::from(text)
}

fn all_statuses() -> Vec<TaskStatus> {
    TaskStatus::all()
}

fn ids_in(lines: &Vec<String>, status: TaskStatus) -> Vec<usize> {
    let tasks = get_tasks_in_sections(lines, &vec![status]).unwrap();
    tasks.iter().map(|t| t.id).collect()
}

#[test]
fn statuses_come_in_section_order() {
    assert_eq!(
        TaskStatus::all(),
        vec![TaskStatus::Selected, TaskStatus::Incomplete, TaskStatus::Complete]
    );
}

#[test]
fn add_to_empty_document_allocates_zero() {
    let doc = empty_document_lines();
    let (doc, id) = add_task(&doc, s("buy milk"), TaskStatus::Incomplete).unwrap();
    assert_eq!(id, 0);
    assert_eq!(doc[4], "### INCOMPLETE");
    assert_eq!(doc[5], "");
    assert_eq!(doc[6], "- [ ] **0**: buy milk");
    assert_eq!(doc[7], "");
    assert_eq!(doc[8], "---");
}

#[test]
fn add_allocates_one_more_than_the_maximum() {
    let doc = empty_document_lines();
    let (doc, a) = add_task(&doc, s("first"), TaskStatus::Incomplete).unwrap();
    let (doc, b) = add_task(&doc, s("second"), TaskStatus::Complete).unwrap();
    let (doc, c) = add_task(&doc, s("third"), TaskStatus::Selected).unwrap();
    assert_eq!((a, b, c), (0, 1, 2));
    // The allocator looks across all three sections.
    let (_, d) = add_task(&doc, s("fourth"), TaskStatus::Incomplete).unwrap();
    assert_eq!(d, 3);
}

#[test]
fn add_inserts_at_the_top_of_the_section() {
    let doc = empty_document_lines();
    let (doc, _) = add_task(&doc, s("older"), TaskStatus::Incomplete).unwrap();
    let (doc, _) = add_task(&doc, s("newer"), TaskStatus::Incomplete).unwrap();
    assert_eq!(ids_in(&doc, TaskStatus::Incomplete), vec![1, 0]);
    let tasks = get_tasks_in_sections(&doc, &vec![TaskStatus::Incomplete]).unwrap();
    assert_eq!(tasks[0].task, "newer");
    assert_eq!(tasks[1].task, "older");
}

#[test]
fn add_then_list_shows_the_new_task() {
    let doc = empty_document_lines();
    let (doc, id) = add_task(&doc, s("buy milk"), TaskStatus::Incomplete).unwrap();
    let listed = get_tasks_in_sections(&doc, &all_statuses()).unwrap();
    assert!(listed.iter().any(|t| {
        t.id == id && t.task == "buy milk" && t.task_status == TaskStatus::Incomplete
    }));
}

#[test]
fn add_fails_on_a_document_that_does_not_parse() {
    let junk = vec![s("no sections here")];
    let r = add_task(&junk, s("x"), TaskStatus::Incomplete);
    assert_eq!(r.err(), Some(DocError::SectionNotFound));
}

#[test]
fn list_filters_by_status() {
    let doc = empty_document_lines();
    let (doc, _) = add_task(&doc, s("a"), TaskStatus::Incomplete).unwrap();
    let (doc, _) = add_task(&doc, s("b"), TaskStatus::Selected).unwrap();
    let (doc, _) = add_task(&doc, s("c"), TaskStatus::Complete).unwrap();
    assert_eq!(ids_in(&doc, TaskStatus::Selected), vec![1]);
    assert_eq!(ids_in(&doc, TaskStatus::Incomplete), vec![0]);
    assert_eq!(ids_in(&doc, TaskStatus::Complete), vec![2]);
    let every = get_tasks_in_sections(&doc, &all_statuses()).unwrap();
    let ids: Vec<usize> = every.iter().map(|t| t.id).collect();
    // Document order: SELECTED first, then INCOMPLETE, then COMPLETE.
    assert_eq!(ids, vec![1, 0, 2]);
}

#[test]
fn move_unknown_id_is_task_not_found() {
    let doc = empty_document_lines();
    let r = move_task_to_section(9, &doc, TaskStatus::Complete, vec![TaskStatus::Complete]);
    assert_eq!(r.err(), Some(DocError::TaskNotFound));
}

#[test]
fn check_moves_a_task_to_complete() {
    let doc = empty_document_lines();
    let (doc, id) = add_task(&doc, s("ship it"), TaskStatus::Incomplete).unwrap();
    let doc = move_task_to_section(id, &doc, TaskStatus::Complete, vec![TaskStatus::Complete])
        .unwrap();
    assert_eq!(ids_in(&doc, TaskStatus::Incomplete), Vec::<usize>::new());
    assert_eq!(ids_in(&doc, TaskStatus::Complete), vec![id]);
    let tasks = get_tasks_in_sections(&doc, &vec![TaskStatus::Complete]).unwrap();
    assert_eq!(tasks[0].task, "ship it");
}

#[test]
fn checking_twice_fails_and_changes_nothing() {
    let doc = empty_document_lines();
    let (doc, id) = add_task(&doc, s("once"), TaskStatus::Incomplete).unwrap();
    let doc = move_task_to_section(id, &doc, TaskStatus::Complete, vec![TaskStatus::Complete])
        .unwrap();
    let again = move_task_to_section(id, &doc, TaskStatus::Complete, vec![TaskStatus::Complete]);
    assert_eq!(again.err(), Some(DocError::AlreadyInTargetState));
    // The failing call handed back no document, so the stored one is
    // untouched; it still parses to the same single complete task.
    let tasks = parse_document(&doc).unwrap();
    assert_eq!(tasks.len(), 1);
    assert_eq!(tasks[0].task_status, TaskStatus::Complete);
}

#[test]
fn deselect_requires_a_selected_task() {
    let doc = empty_document_lines();
    let (doc, id) = add_task(&doc, s("plain"), TaskStatus::Incomplete).unwrap();
    let r = move_task_to_section(
        id,
        &doc,
        TaskStatus::Incomplete,
        vec![TaskStatus::Incomplete, TaskStatus::Complete],
    );
    assert_eq!(r.err(), Some(DocError::AlreadyInTargetState));
}

#[test]
fn moved_task_lands_on_top_of_its_new_section() {
    let doc = empty_document_lines();
    let (doc, a) = add_task(&doc, s("a"), TaskStatus::Incomplete).unwrap();
    let (doc, b) = add_task(&doc, s("b"), TaskStatus::Incomplete).unwrap();
    let (doc, c) = add_task(&doc, s("c"), TaskStatus::Incomplete).unwrap();
    assert_eq!(ids_in(&doc, TaskStatus::Incomplete), vec![c, b, a]);
    // Move the bottom task up into SELECTED and back: it re-enters at the top.
    let doc = move_task_to_section(a, &doc, TaskStatus::Selected, vec![]).unwrap();
    assert_eq!(ids_in(&doc, TaskStatus::Selected), vec![a]);
    assert_eq!(ids_in(&doc, TaskStatus::Incomplete), vec![c, b]);
    let doc = move_task_to_section(
        a,
        &doc,
        TaskStatus::Incomplete,
        vec![TaskStatus::Incomplete, TaskStatus::Complete],
    )
    .unwrap();
    assert_eq!(ids_in(&doc, TaskStatus::Incomplete), vec![a, c, b]);
}

#[test]
fn move_does_not_touch_other_sections() {
    let doc = empty_document_lines();
    let (doc, a) = add_task(&doc, s("a"), TaskStatus::Complete).unwrap();
    let (doc, b) = add_task(&doc, s("b"), TaskStatus::Incomplete).unwrap();
    let (doc, c) = add_task(&doc, s("c"), TaskStatus::Incomplete).unwrap();
    let doc = move_task_to_section(b, &doc, TaskStatus::Selected, vec![]).unwrap();
    assert_eq!(ids_in(&doc, TaskStatus::Selected), vec![b]);
    assert_eq!(ids_in(&doc, TaskStatus::Incomplete), vec![c]);
    assert_eq!(ids_in(&doc, TaskStatus::Complete), vec![a]);
}

#[test]
fn next_id_is_zero_on_the_empty_document() {
    let doc = empty_document_lines();
    assert_eq!(get_next_id(&doc), 0);
}

#[test]
fn next_id_is_one_past_the_largest() {
    let doc = empty_document_lines();
    let (doc, _) = add_task(&doc, s("x"), TaskStatus::Incomplete).unwrap();
    let (doc, _) = add_task(&doc, s("y"), TaskStatus::Complete).unwrap();
    assert_eq!(get_next_id(&doc), 2);
}

#[test]
fn full_scenario_from_creation_to_uncheck() {
    // Start from a freshly created document.
    let doc = empty_document_lines();
    // Add "buy milk": it gets id 0 and lands in INCOMPLETE.
    let (doc, first) = add_task(&doc, s("buy milk"), TaskStatus::Incomplete).unwrap();
    assert_eq!(first, 0);
    assert_eq!(ids_in(&doc, TaskStatus::Incomplete), vec![0]);
    // Add "buy eggs": it gets id 1 and lands above id 0.
    let (doc, second) = add_task(&doc, s("buy eggs"), TaskStatus::Incomplete).unwrap();
    assert_eq!(second, 1);
    assert_eq!(ids_in(&doc, TaskStatus::Incomplete), vec![1, 0]);
    // Select id 0: it moves to SELECTED, INCOMPLETE keeps only id 1.
    let doc = move_task_to_section(0, &doc, TaskStatus::Selected, vec![]).unwrap();
    assert_eq!(ids_in(&doc, TaskStatus::Selected), vec![0]);
    assert_eq!(ids_in(&doc, TaskStatus::Incomplete), vec![1]);
    // Check id 0: it is selected, not complete, so the check succeeds.
    let doc = move_task_to_section(0, &doc, TaskStatus::Complete, vec![TaskStatus::Complete])
        .unwrap();
    assert_eq!(ids_in(&doc, TaskStatus::Complete), vec![0]);
    // Check id 0 again: now it is already complete.
    let again = move_task_to_section(0, &doc, TaskStatus::Complete, vec![TaskStatus::Complete]);
    assert_eq!(again.err(), Some(DocError::AlreadyInTargetState));
    // Uncheck id 0 back to INCOMPLETE: it re-enters at the top, above id 1.
    let doc = move_task_to_section(
        0,
        &doc,
        TaskStatus::Incomplete,
        vec![TaskStatus::Selected, TaskStatus::Incomplete],
    )
    .unwrap();
    assert_eq!(ids_in(&doc, TaskStatus::Incomplete), vec![0, 1]);
}
