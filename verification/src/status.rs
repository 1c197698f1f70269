use vstd::prelude::*;

verus! {

/// Status of a task. The document stores each task in the section named
/// after its status, so a status is also the name of a section.
#[derive(Clone, Copy, Debug, PartialEq, Eq, Structural)]
pub enum TaskStatus {
    Selected,
    Incomplete,
    Complete,
}

impl TaskStatus {
    /// All statuses, in the fixed order of the sections in the document:
    /// SELECTED, then INCOMPLETE, then COMPLETE.
    pub fn all() -> (r: Vec<TaskStatus>)
        ensures
            r@ == status_order(),
    {
        let mut v: Vec<TaskStatus> = Vec::new();
        v.push(TaskStatus::Selected);
        v.push(TaskStatus::Incomplete);
        v.push(TaskStatus::Complete);
        proof {
            assert(v@ =~= status_order());
        }
        v
    }
}

/// The fixed order of the sections in the document.
pub open spec fn status_order() -> Seq<TaskStatus> {
    seq![TaskStatus::Selected, TaskStatus::Incomplete, TaskStatus::Complete]
}

/// The header line of the section that stores tasks of the given status.
pub open spec fn header_seq(s: TaskStatus) -> Seq<char> {
    match s {
        TaskStatus::Selected => seq!['#', '#', '#', ' ', 'S', 'E', 'L', 'E', 'C', 'T', 'E', 'D'],
        TaskStatus::Incomplete => seq![
            '#',
            '#',
            '#',
            ' ',
            'I',
            'N',
            'C',
            'O',
            'M',
            'P',
            'L',
            'E',
            'T',
            'E',
        ],
        TaskStatus::Complete => seq!['#', '#', '#', ' ', 'C', 'O', 'M', 'P', 'L', 'E', 'T', 'E'],
    }
}

/// The separator line that closes every section.
pub open spec fn separator_seq() -> Seq<char> {
    seq!['-', '-', '-']
}

/// Distinct statuses name distinct sections, and no header is a separator.
pub proof fn lemma_headers_distinct()
    ensures
        forall|a: TaskStatus, b: TaskStatus| a != b ==> header_seq(a) != header_seq(b),
        forall|a: TaskStatus| header_seq(a) != separator_seq(),
{
    assert forall|a: TaskStatus, b: TaskStatus| a != b implies header_seq(a) != header_seq(b) by {
        assert(header_seq(TaskStatus::Selected)[4] == 'S');
        assert(header_seq(TaskStatus::Incomplete)[4] == 'I');
        assert(header_seq(TaskStatus::Complete)[4] == 'C');
        assert(header_seq(TaskStatus::Selected).len() == 12);
        assert(header_seq(TaskStatus::Incomplete).len() == 14);
        assert(header_seq(TaskStatus::Complete).len() == 12);
    }
    assert forall|a: TaskStatus| header_seq(a) != separator_seq() by {
        assert(header_seq(a)[0] == '#');
        assert(separator_seq()[0] == '-');
    }
}

/// The exact text of a section header line.
pub fn header_line(s: TaskStatus) -> (r: String)
    ensures
        r@ == header_seq(s),
{
    match s {
        TaskStatus::Selected => {
            let h = String::from_str("### SELECTED");
            proof {
                reveal_strlit("### SELECTED");
                assert(h@ =~= header_seq(TaskStatus::Selected));
            }
            h
        },
        TaskStatus::Incomplete => {
            let h = String::from_str("### INCOMPLETE");
            proof {
                reveal_strlit("### INCOMPLETE");
                assert(h@ =~= header_seq(TaskStatus::Incomplete));
            }
            h
        },
        TaskStatus::Complete => {
            let h = String::from_str("### COMPLETE");
            proof {
                reveal_strlit("### COMPLETE");
                assert(h@ =~= header_seq(TaskStatus::Complete));
            }
            h
        },
    }
}

/// The exact text of the separator line.
pub fn separator_line() -> (r: String)
    ensures
        r@ == separator_seq(),
{
    let h = String::from_str("---");
    proof {
        reveal_strlit("---");
        assert(h@ =~= separator_seq());
    }
    h
}

/// The status whose section header is exactly the given line, if any.
pub open spec fn spec_status_of_header(line: Seq<char>) -> Option<TaskStatus> {
    if line == header_seq(TaskStatus::Selected) {
        Some(TaskStatus::Selected)
    } else if line == header_seq(TaskStatus::Incomplete) {
        Some(TaskStatus::Incomplete)
    } else if line == header_seq(TaskStatus::Complete) {
        Some(TaskStatus::Complete)
    } else {
        None
    }
}

/// Recognize a section header line.
pub fn status_of_header(line: &String) -> (r: Option<TaskStatus>)
    ensures
        r == spec_status_of_header(line@),
{
    let sel = header_line(TaskStatus::Selected);
    if line.eq(&sel) {
        return Some(TaskStatus::Selected);
    }
    let inc = header_line(TaskStatus::Incomplete);
    if line.eq(&inc) {
        return Some(TaskStatus::Incomplete);
    }
    let com = header_line(TaskStatus::Complete);
    if line.eq(&com) {
        return Some(TaskStatus::Complete);
    }
    None
}

/// Whether a status occurs in a list of statuses.
pub fn status_in(list: &Vec<TaskStatus>, s: TaskStatus) -> (r: bool)
    ensures
        r == list@.contains(s),
{
    let mut i: usize = 0;
    while i < list.len()
        invariant
            i <= list@.len(),
            forall|j: int| 0 <= j < i ==> list@[j] != s,
        decreases list@.len() - i,
    {
        if list[i] == s {
            return true;
        }
        i += 1;
    }
    false
}

} // verus!
