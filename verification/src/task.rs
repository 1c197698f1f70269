use vstd::prelude::*;
use crate::decimal::{
    all_digits,
    decimal_digits,
    digits_val,
    is_digit_char,
    lemma_decimal_digits_val,
    parse_decimal,
    usize_to_decimal,
};
use crate::error::DocError;
use crate::status::{header_seq, separator_seq, TaskStatus};

verus! {

/// One task: an identifier, its free-text description, and its status.
#[derive(Debug)]
pub struct Task {
    pub id: usize,
    pub task: String,
    pub task_status: TaskStatus,
}

/// The mathematical value of a task.
#[verifier::ext_equal]
pub ghost struct TaskView {
    pub id: nat,
    pub text: Seq<char>,
    pub status: TaskStatus,
}

impl View for Task {
    type V = TaskView;

    open spec fn view(&self) -> TaskView {
        TaskView { id: self.id as nat, text: self.task@, status: self.task_status }
    }
}

/// A task value that a document can carry: its identifier fits in a `usize`.
pub open spec fn task_view_wf(t: TaskView) -> bool {
    t.id <= usize::MAX
}

/// The checkbox marker of a status: checked exactly for a complete task.
pub open spec fn checkbox_char(s: TaskStatus) -> char {
    if s is Complete {
        'x'
    } else {
        ' '
    }
}

/// The eight characters every task line starts with, up to and including
/// the delimiter that opens the identifier field.
pub open spec fn prefix_seq(s: TaskStatus) -> Seq<char> {
    seq!['-', ' ', '[', checkbox_char(s), ']', ' ', '*', '*']
}

/// The four characters that close the identifier field.
pub open spec fn delim_seq() -> Seq<char> {
    seq!['*', '*', ':', ' ']
}

/// The canonical line form of a task.
pub open spec fn encode_line(t: TaskView) -> Seq<char> {
    prefix_seq(t.status) + decimal_digits(t.id) + delim_seq() + t.text
}

/// A line is a task line exactly when it begins with one of the two fixed
/// checkbox prefixes.
pub open spec fn is_task_line(line: Seq<char>) -> bool {
    &&& line.len() >= 8
    &&& line[0] == '-'
    &&& line[1] == ' '
    &&& line[2] == '['
    &&& (line[3] == ' ' || line[3] == 'x')
    &&& line[4] == ']'
    &&& line[5] == ' '
    &&& line[6] == '*'
    &&& line[7] == '*'
}

/// The first position at or after `i` holding a star, or the line's length
/// if there is none.
pub open spec fn first_star_from(line: Seq<char>, i: int) -> int
    decreases line.len() - i,
{
    if i < 0 || i >= line.len() {
        line.len() as int
    } else if line[i] == '*' {
        i
    } else {
        first_star_from(line, i + 1)
    }
}

/// The position just after the identifier field of a task line.
pub open spec fn task_id_end(line: Seq<char>) -> int {
    first_star_from(line, 8)
}

/// A task line whose identifier field is well formed: a non-empty run of
/// digits whose value fits in a `usize`, closed by the fixed delimiter.
pub open spec fn task_line_wf(line: Seq<char>) -> bool {
    &&& is_task_line(line)
    &&& 8 < task_id_end(line)
    &&& task_id_end(line) + 4 <= line.len()
    &&& line[task_id_end(line) + 1] == '*'
    &&& line[task_id_end(line) + 2] == ':'
    &&& line[task_id_end(line) + 3] == ' '
    &&& all_digits(line.subrange(8, task_id_end(line)))
    &&& digits_val(line.subrange(8, task_id_end(line))) <= usize::MAX
}

/// The identifier a well-formed task line carries.
pub open spec fn decoded_id(line: Seq<char>) -> nat {
    digits_val(line.subrange(8, task_id_end(line)))
}

/// The description a well-formed task line carries.
pub open spec fn decoded_text(line: Seq<char>) -> Seq<char> {
    line.subrange(task_id_end(line) + 4, line.len() as int)
}

/// Whether a task line's checkbox is checked.
pub open spec fn decoded_checked(line: Seq<char>) -> bool {
    line[3] == 'x'
}

/// The task a well-formed line decodes to inside the given section.
pub open spec fn decoded_view(line: Seq<char>, section: TaskStatus) -> TaskView {
    TaskView { id: decoded_id(line), text: decoded_text(line), status: section }
}

/// The failure decoding a line inside the given section reports, if any.
/// A malformed identifier is reported before a checkbox that disagrees
/// with the section.
pub open spec fn line_parse_err(line: Seq<char>, section: TaskStatus) -> Option<DocError> {
    if !is_task_line(line) {
        None
    } else if !task_line_wf(line) {
        Some(DocError::MalformedTaskId)
    } else if decoded_checked(line) != (section is Complete) {
        Some(DocError::StatusSectionMismatch)
    } else {
        None
    }
}

impl Task {
    /// Encode one task: checkbox marker, delimited identifier, then the
    /// description verbatim.
    pub fn to_markdown(&self) -> (r: String)
        ensures
            r@ == encode_line(self@),
    {
        let mut s = String::new();
        if self.task_status == TaskStatus::Complete {
            s.append("- [x] **");
            proof {
                reveal_strlit("- [x] **");
                assert(s@ =~= prefix_seq(self.task_status));
            }
        } else {
            s.append("- [ ] **");
            proof {
                reveal_strlit("- [ ] **");
                assert(s@ =~= prefix_seq(self.task_status));
            }
        }
        let digits = usize_to_decimal(self.id);
        s.append(digits.as_str());
        s.append("**: ");
        proof {
            reveal_strlit("**: ");
            assert(s@ =~= prefix_seq(self.task_status) + decimal_digits(self.id as nat)
                + delim_seq());
        }
        s.append(self.task.as_str());
        proof {
            assert(s@ =~= encode_line(self@));
        }
        s
    }
}

/// The first star at or after position `from`, or the line's length.
pub fn find_star(line: &str, from: usize) -> (r: usize)
    requires
        from <= line@.len(),
    ensures
        r == first_star_from(line@, from as int),
        from <= r <= line@.len(),
{
    let n = line.unicode_len();
    let mut i: usize = from;
    while i < n
        invariant
            from <= i <= n,
            n == line@.len(),
            first_star_from(line@, from as int) == first_star_from(line@, i as int),
        decreases n - i,
    {
        if line.get_char(i) == '*' {
            return i;
        }
        i += 1;
    }
    i
}

/// Decode one line found inside the section of the given status: the task
/// it holds, `None` for a line that is no task line, or the failure the
/// line provokes.
pub fn parse_task_line(line: &String, section: TaskStatus) -> (r: Result<Option<Task>, DocError>)
    ensures
        r is Err <==> line_parse_err(line@, section) is Some,
        r matches Err(e) ==> Some(e) == line_parse_err(line@, section),
        r matches Ok(o) ==> (o is Some <==> is_task_line(line@)),
        r matches Ok(Some(t)) ==> t@ == decoded_view(line@, section) && task_line_wf(line@),
{
    let s = line.as_str();
    let n = s.unicode_len();
    if n < 8 {
        return Ok(None);
    }
    let c0 = s.get_char(0);
    let c1 = s.get_char(1);
    let c2 = s.get_char(2);
    let c3 = s.get_char(3);
    let c4 = s.get_char(4);
    let c5 = s.get_char(5);
    let c6 = s.get_char(6);
    let c7 = s.get_char(7);
    if !(c0 == '-' && c1 == ' ' && c2 == '[' && (c3 == ' ' || c3 == 'x') && c4 == ']' && c5 == ' '
        && c6 == '*' && c7 == '*') {
        return Ok(None);
    }
    let j = find_star(s, 8);
    if j == 8 || n - j < 4 {
        return Err(DocError::MalformedTaskId);
    }
    let d1 = s.get_char(j + 1);
    let d2 = s.get_char(j + 2);
    let d3 = s.get_char(j + 3);
    if !(d1 == '*' && d2 == ':' && d3 == ' ') {
        return Err(DocError::MalformedTaskId);
    }
    let id = match parse_decimal(s, 8, j) {
        Some(v) => v,
        None => {
            return Err(DocError::MalformedTaskId);
        },
    };
    let checked = c3 == 'x';
    if checked != (section == TaskStatus::Complete) {
        return Err(DocError::StatusSectionMismatch);
    }
    let text_str = s.substring_char(j + 4, n);
    let text = String::from_str(text_str);
    let t = Task { id, task: text, task_status: section };
    proof {
        assert(t@ =~= decoded_view(line@, section));
    }
    Ok(Some(t))
}

/// Parse the identifier field of a line: the run of characters between
/// position eight and the first star after it, read as a number. This is
/// exactly what a line contributes when identifiers are collected, whether
/// or not the line is a task line.
pub open spec fn spec_line_id(line: Seq<char>) -> Option<nat> {
    if line.len() < 8 {
        None
    } else {
        let e = task_id_end(line);
        let ds = line.subrange(8, e);
        if 8 < e && all_digits(ds) && digits_val(ds) <= usize::MAX {
            Some(digits_val(ds))
        } else {
            None
        }
    }
}

/// Read the identifier field of a line, or fail for a line that carries
/// none.
pub fn get_id(task: &String) -> (r: Result<usize, DocError>)
    ensures
        r is Ok <==> spec_line_id(task@) is Some,
        r matches Ok(v) ==> spec_line_id(task@) == Some(v as nat),
        r matches Err(e) ==> e == DocError::MalformedTaskId,
{
    let s = task.as_str();
    let n = s.unicode_len();
    if n < 8 {
        return Err(DocError::MalformedTaskId);
    }
    let j = find_star(s, 8);
    match parse_decimal(s, 8, j) {
        Some(v) => Ok(v),
        None => Err(DocError::MalformedTaskId),
    }
}

/// Read the identifier field of a line, or fail for a line that carries
/// none.
pub fn get_task_id(task: &String) -> (r: Result<usize, DocError>)
    ensures
        r is Ok <==> spec_line_id(task@) is Some,
        r matches Ok(v) ==> spec_line_id(task@) == Some(v as nat),
        r matches Err(e) ==> e == DocError::MalformedTaskId,
{
    get_id(task)
}

/// If a line holds a star at position `k` and none between `i` and `k`,
/// the first star search from `i` stops at `k`.
pub proof fn lemma_first_star_at(line: Seq<char>, i: int, k: int)
    requires
        0 <= i <= k < line.len(),
        forall|j: int| i <= j < k ==> line[j] != '*',
        line[k] == '*',
    ensures
        first_star_from(line, i) == k,
    decreases k - i,
{
    if i < k {
        lemma_first_star_at(line, i + 1, k);
    }
}

/// Encoding is decoded back to the very task: the codec loses nothing.
pub proof fn lemma_decode_encode(t: TaskView)
    requires
        task_view_wf(t),
    ensures
        is_task_line(encode_line(t)),
        task_line_wf(encode_line(t)),
        task_id_end(encode_line(t)) == 8 + decimal_digits(t.id).len(),
        decoded_checked(encode_line(t)) == (t.status is Complete),
        line_parse_err(encode_line(t), t.status) is None,
        decoded_view(encode_line(t), t.status) == t,
{
    let line = encode_line(t);
    let digits = decimal_digits(t.id);
    lemma_decimal_digits_val(t.id);
    let e = 8 + digits.len() as int;
    assert forall|j: int| 8 <= j < e implies line[j] != '*' by {
        assert(line[j] == digits[j - 8]);
        assert(is_digit_char(digits[j - 8]));
    }
    assert(line[e] == delim_seq()[0]);
    lemma_first_star_at(line, 8, e);
    assert(line.subrange(8, e) =~= digits);
    assert(decoded_text(line) =~= t.text);
    assert(decoded_view(line, t.status) =~= t);
}

/// A syntactically valid task line re-encodes to itself: the codec
/// changes nothing on lines it accepts as canonical.
pub proof fn lemma_encode_decode(line: Seq<char>, t: TaskView)
    requires
        task_view_wf(t),
        line == encode_line(t),
    ensures
        task_line_wf(line),
        encode_line(decoded_view(line, t.status)) == line,
{
    lemma_decode_encode(t);
}

/// No header line, separator line or blank line is a task line.
pub proof fn lemma_specials_not_task_lines()
    ensures
        forall|s: TaskStatus| !is_task_line(header_seq(s)),
        !is_task_line(separator_seq()),
        !is_task_line(Seq::<char>::empty()),
{
    assert forall|s: TaskStatus| !is_task_line(header_seq(s)) by {
        assert(header_seq(s)[0] == '#');
    }
    assert(separator_seq().len() == 3);
}

/// No encoded task is a header line, a separator line or blank.
pub proof fn lemma_encode_not_special(t: TaskView)
    ensures
        forall|s: TaskStatus| encode_line(t) != header_seq(s),
        encode_line(t) != separator_seq(),
        encode_line(t) != Seq::<char>::empty(),
{
    let line = encode_line(t);
    assert(line[1] == ' ');
    assert(line.len() >= 8);
    assert forall|s: TaskStatus| line != header_seq(s) by {
        assert(header_seq(s)[1] == '#');
    }
    assert(separator_seq()[1] == '-');
}

} // verus!
