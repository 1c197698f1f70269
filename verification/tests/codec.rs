use markdone::decimal::{parse_decimal, usize_to_decimal};
use markdone::document::{empty_document_lines, get_section_end, get_section_indexes,
    get_section_start, parse_document, render_document};
use markdone::error::DocError;
use markdone::status::{status_of_header, TaskStatus};
use markdone::task::{get_id, get_task_id, parse_task_line, Task};

fn s(text: &str) -> String {
    String::from(text)
}

#[test]
fn decimal_renders_zero() {
    assert_eq!(usize_to_decimal(0), "0");
}

#[test]
fn decimal_renders_large_numbers() {
    assert_eq!(usize_to_decimal(7), "7");
    assert_eq!(usize_to_decimal(10), "10");
    assert_eq!(usize_to_decimal(907), "907");
    assert_eq!(usize_to_decimal(123456789), "123456789");
}

#[test]
fn decimal_parses_back() {
    assert_eq!(parse_decimal("907", 0, 3), Some(907));
    assert_eq!(parse_decimal("x907y", 1, 4), Some(907));
    assert_eq!(parse_decimal("", 0, 0), None);
    assert_eq!(parse_decimal("9a7", 0, 3), None);
}

#[test]
fn decimal_parse_rejects_overflow() {
    // Twenty-one digits cannot fit in a usize.
    let big = "111111111111111111111";
    assert_eq!(parse_decimal(big, 0, big.len()), None);
}

#[test]
fn task_renders_unchecked_line() {
    let t = Task { id: 12, task: s("buy milk"), task_status: TaskStatus::Incomplete };
    assert_eq!(t.to_markdown(), "- [ ] **12**: buy milk");
}

#[test]
fn task_renders_selected_as_unchecked() {
    let t = Task { id: 0, task: s("deploy"), task_status: TaskStatus::Selected };
    assert_eq!(t.to_markdown(), "- [ ] **0**: deploy");
}

#[test]
fn task_renders_checked_line() {
    let t = Task { id: 7, task: s("done thing"), task_status: TaskStatus::Complete };
    assert_eq!(t.to_markdown(), "- [x] **7**: done thing");
}

#[test]
fn task_line_round_trips_through_codec() {
    let t = Task { id: 42, task: s("a: tricky **text**"), task_status: TaskStatus::Incomplete };
    let line = t.to_markdown();
    let back = parse_task_line(&line, TaskStatus::Incomplete)
        .expect("decoding an encoded line must not fail")
        .expect("an encoded line is a task line");
    assert_eq!(back.id, 42);
    assert_eq!(back.task, "a: tricky **text**");
    assert_eq!(back.task_status, TaskStatus::Incomplete);
    // And the re-encoding reproduces the line exactly.
    assert_eq!(back.to_markdown(), line);
}

#[test]
fn task_line_with_empty_text_round_trips() {
    let t = Task { id: 3, task: s(""), task_status: TaskStatus::Complete };
    let line = t.to_markdown();
    assert_eq!(line, "- [x] **3**: ");
    let back = parse_task_line(&line, TaskStatus::Complete).unwrap().unwrap();
    assert_eq!(back.task, "");
    assert_eq!(back.to_markdown(), line);
}

#[test]
fn non_task_lines_are_skipped() {
    assert!(parse_task_line(&s(""), TaskStatus::Incomplete).unwrap().is_none());
    assert!(parse_task_line(&s("### SELECTED"), TaskStatus::Incomplete).unwrap().is_none());
    assert!(parse_task_line(&s("---"), TaskStatus::Incomplete).unwrap().is_none());
    assert!(parse_task_line(&s("some prose"), TaskStatus::Incomplete).unwrap().is_none());
}

#[test]
fn malformed_id_is_reported() {
    let r = parse_task_line(&s("- [ ] **xx**: task"), TaskStatus::Incomplete);
    assert_eq!(r.unwrap_err(), DocError::MalformedTaskId);
    let r = parse_task_line(&s("- [ ] ****: task"), TaskStatus::Incomplete);
    assert_eq!(r.unwrap_err(), DocError::MalformedTaskId);
    let r = parse_task_line(&s("- [ ] **12"), TaskStatus::Incomplete);
    assert_eq!(r.unwrap_err(), DocError::MalformedTaskId);
}

#[test]
fn checkbox_must_match_section() {
    let r = parse_task_line(&s("- [x] **1**: t"), TaskStatus::Selected);
    assert_eq!(r.unwrap_err(), DocError::StatusSectionMismatch);
    let r = parse_task_line(&s("- [x] **1**: t"), TaskStatus::Incomplete);
    assert_eq!(r.unwrap_err(), DocError::StatusSectionMismatch);
    let r = parse_task_line(&s("- [ ] **1**: t"), TaskStatus::Complete);
    assert_eq!(r.unwrap_err(), DocError::StatusSectionMismatch);
}

#[test]
fn get_id_reads_the_id_field() {
    assert_eq!(get_id(&s("- [ ] **12**: buy milk")), Ok(12));
    assert_eq!(get_id(&s("- [x] **0**: x")), Ok(0));
    assert_eq!(get_id(&s("### SELECTED")), Err(DocError::MalformedTaskId));
    assert_eq!(get_id(&s("---")), Err(DocError::MalformedTaskId));
    assert_eq!(get_id(&s("")), Err(DocError::MalformedTaskId));
}

#[test]
fn get_task_id_agrees_with_get_id() {
    let line = s("- [ ] **905**: q");
    assert_eq!(get_task_id(&line), get_id(&line));
    assert_eq!(get_task_id(&line), Ok(905));
}

#[test]
fn every_failure_has_a_description() {
    let all = vec![
        DocError::SectionNotFound,
        DocError::SectionMalformed,
        DocError::MalformedTaskId,
        DocError::StatusSectionMismatch,
        DocError::TaskNotFound,
        DocError::AlreadyInTargetState,
        DocError::AlreadyExists,
        DocError::IOError,
    ];
    for e in all {
        assert!(!e.describe().is_empty());
    }
}

#[test]
fn headers_are_recognized() {
    assert_eq!(status_of_header(&s("### SELECTED")), Some(TaskStatus::Selected));
    assert_eq!(status_of_header(&s("### INCOMPLETE")), Some(TaskStatus::Incomplete));
    assert_eq!(status_of_header(&s("### COMPLETE")), Some(TaskStatus::Complete));
    assert_eq!(status_of_header(&s("### DONE")), None);
    assert_eq!(status_of_header(&s("")), None);
}

#[test]
fn empty_document_has_the_canonical_skeleton() {
    let lines = empty_document_lines();
    let expected = vec![
        s("### SELECTED"),
        s(""),
        s("---"),
        s(""),
        s("### INCOMPLETE"),
        s(""),
        s("---"),
        s(""),
        s("### COMPLETE"),
        s(""),
        s("---"),
    ];
    assert_eq!(lines, expected);
}

#[test]
fn section_indexes_of_the_empty_document() {
    let lines = empty_document_lines();
    assert_eq!(get_section_indexes(&lines, TaskStatus::Selected), Ok((0, 2)));
    assert_eq!(get_section_indexes(&lines, TaskStatus::Incomplete), Ok((4, 6)));
    assert_eq!(get_section_indexes(&lines, TaskStatus::Complete), Ok((8, 10)));
}

#[test]
fn missing_header_is_section_not_found() {
    let lines = vec![s("just some prose"), s("---")];
    assert_eq!(get_section_start(&lines, TaskStatus::Selected), Err(DocError::SectionNotFound));
    assert_eq!(
        get_section_indexes(&lines, TaskStatus::Incomplete),
        Err(DocError::SectionNotFound)
    );
}

#[test]
fn missing_separator_is_section_malformed() {
    let lines = vec![s("### SELECTED"), s(""), s("- [ ] **0**: a")];
    assert_eq!(get_section_end(&lines, 0), Err(DocError::SectionMalformed));
    assert_eq!(get_section_indexes(&lines, TaskStatus::Selected), Err(DocError::SectionMalformed));
}

#[test]
fn parse_document_reads_tasks_in_section_order() {
    let lines = vec![
        s("### SELECTED"),
        s(""),
        s("- [ ] **2**: picked"),
        s(""),
        s("---"),
        s(""),
        s("### INCOMPLETE"),
        s(""),
        s("- [ ] **1**: pending"),
        s("- [ ] **0**: older"),
        s(""),
        s("---"),
        s(""),
        s("### COMPLETE"),
        s(""),
        s("- [x] **3**: shipped"),
        s(""),
        s("---"),
    ];
    let tasks = parse_document(&lines).unwrap();
    let ids: Vec<usize> = tasks.iter().map(|t| t.id).collect();
    assert_eq!(ids, vec![2, 1, 0, 3]);
    assert_eq!(tasks[0].task_status, TaskStatus::Selected);
    assert_eq!(tasks[1].task_status, TaskStatus::Incomplete);
    assert_eq!(tasks[2].task_status, TaskStatus::Incomplete);
    assert_eq!(tasks[3].task_status, TaskStatus::Complete);
    assert_eq!(tasks[3].task, "shipped");
}

#[test]
fn render_after_parse_preserves_every_task() {
    let lines = vec![
        s("### SELECTED"),
        s(""),
        s("---"),
        s(""),
        s("### INCOMPLETE"),
        s(""),
        s("- [ ] **5**: write"),
        s("- [ ] **4**: read"),
        s(""),
        s("---"),
        s(""),
        s("### COMPLETE"),
        s(""),
        s("- [x] **1**: rest"),
        s(""),
        s("---"),
    ];
    let tasks = parse_document(&lines).unwrap();
    let saved = render_document(&tasks);
    let again = parse_document(&saved).unwrap();
    assert_eq!(tasks.len(), again.len());
    for (a, b) in tasks.iter().zip(again.iter()) {
        assert_eq!(a.id, b.id);
        assert_eq!(a.task, b.task);
        assert_eq!(a.task_status, b.task_status);
    }
}

#[test]
fn render_normalizes_spacers() {
    // A hand-written document without the spacer blank lines still parses,
    // and re-serializing it restores the canonical spacing.
    let lines = vec![
        s("### SELECTED"),
        s("---"),
        s("### INCOMPLETE"),
        s("- [ ] **0**: a"),
        s("---"),
        s("### COMPLETE"),
        s("---"),
    ];
    let tasks = parse_document(&lines).unwrap();
    assert_eq!(tasks.len(), 1);
    let saved = render_document(&tasks);
    assert_eq!(saved[4], "### INCOMPLETE");
    assert_eq!(saved[5], "");
    assert_eq!(saved[6], "- [ ] **0**: a");
    assert_eq!(saved[7], "");
    assert_eq!(saved[8], "---");
}
