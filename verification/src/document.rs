use vstd::prelude::*;
use crate::error::DocError;
use crate::status::{header_line, header_seq, separator_line, separator_seq, TaskStatus};
use crate::task::{
    decoded_view,
    encode_line,
    is_task_line,
    line_parse_err,
    parse_task_line,
    Task,
    TaskView,
};

verus! {

/// The lines of a document, as sequences of characters.
pub open spec fn view_lines(lines: Seq<String>) -> Seq<Seq<char>> {
    Seq::new(lines.len(), |i: int| lines[i]@)
}

/// The values of a list of tasks.
pub open spec fn views_of(ts: Seq<Task>) -> Seq<TaskView> {
    Seq::new(ts.len(), |i: int| ts[i]@)
}

/// Appending one line to a document appends its characters to the
/// document's value.
pub proof fn lemma_view_lines_snoc(lines: Seq<String>, s: String)
    ensures
        view_lines(lines.push(s)) =~= view_lines(lines) + seq![s@],
{
    let a = view_lines(lines.push(s));
    let b = view_lines(lines) + seq![s@];
    assert forall|i: int| 0 <= i < a.len() implies a[i] == b[i] by {
        assert(a[i] == lines.push(s)[i]@);
        if i < lines.len() {
            assert(lines.push(s)[i] == lines[i]);
            assert(b[i] == view_lines(lines)[i]);
            assert(view_lines(lines)[i] == lines[i]@);
        } else {
            assert(lines.push(s)[i] == s);
        }
    }
}

/// The first position at or after `from` whose line is exactly `target`,
/// or the number of lines if there is none.
pub open spec fn find_line(lines: Seq<Seq<char>>, target: Seq<char>, from: int) -> int
    decreases lines.len() - from,
{
    if from < 0 || from >= lines.len() {
        lines.len() as int
    } else if lines[from] == target {
        from
    } else {
        find_line(lines, target, from + 1)
    }
}

/// The position of the header line of the section that stores tasks of the
/// given status, or the number of lines if the header is absent.
pub open spec fn spec_section_start(lines: Seq<Seq<char>>, section: TaskStatus) -> int {
    find_line(lines, header_seq(section), 0)
}

/// The position of the first separator line at or after `start`, or the
/// number of lines if there is none.
pub open spec fn spec_section_end(lines: Seq<Seq<char>>, start: int) -> int {
    find_line(lines, separator_seq(), start)
}

/// The search for a line stops at `k` when `k` is the first position at or
/// after `from` that holds the target.
pub proof fn lemma_find_line_at(lines: Seq<Seq<char>>, target: Seq<char>, from: int, k: int)
    requires
        0 <= from <= k < lines.len(),
        forall|j: int| from <= j < k ==> lines[j] != target,
        lines[k] == target,
    ensures
        find_line(lines, target, from) == k,
    decreases k - from,
{
    if from < k {
        lemma_find_line_at(lines, target, from + 1, k);
    }
}

/// The search for a line that occurs nowhere at or after `from` returns
/// the number of lines.
pub proof fn lemma_find_line_none(lines: Seq<Seq<char>>, target: Seq<char>, from: int)
    requires
        0 <= from,
        forall|j: int| from <= j < lines.len() ==> lines[j] != target,
    ensures
        find_line(lines, target, from) == lines.len(),
    decreases lines.len() - from,
{
    if from < lines.len() {
        lemma_find_line_none(lines, target, from + 1);
    }
}

/// The found position lies between `from` and the number of lines, and
/// holds the target when it is a proper position.
pub proof fn lemma_find_line_bounds(lines: Seq<Seq<char>>, target: Seq<char>, from: int)
    requires
        0 <= from <= lines.len(),
    ensures
        from <= find_line(lines, target, from) <= lines.len(),
        find_line(lines, target, from) < lines.len() ==> lines[find_line(lines, target, from)]
            == target,
        forall|j: int| from <= j < find_line(lines, target, from) ==> lines[j] != target,
    decreases lines.len() - from,
{
    if from < lines.len() && lines[from] != target {
        lemma_find_line_bounds(lines, target, from + 1);
    }
}

/// Locate the header line of a section. Fails exactly when the header is
/// absent from the document.
pub fn get_section_start(lines: &Vec<String>, section: TaskStatus) -> (r: Result<usize, DocError>)
    ensures
        ({
            let s = spec_section_start(view_lines(lines@), section);
            &&& (r is Ok <==> s < lines@.len())
            &&& (r matches Ok(i) ==> i == s && view_lines(lines@)[i as int] == header_seq(section))
            &&& (r matches Err(e) ==> e == DocError::SectionNotFound && s == lines@.len())
        }),
{
    let ghost vl = view_lines(lines@);
    let header = header_line(section);
    let mut i: usize = 0;
    while i < lines.len()
        invariant
            i <= lines@.len(),
            header@ == header_seq(section),
            vl == view_lines(lines@),
            forall|j: int| 0 <= j < i ==> vl[j] != header_seq(section),
        decreases lines@.len() - i,
    {
        if lines[i].eq(&header) {
            proof {
                lemma_find_line_at(vl, header_seq(section), 0, i as int);
            }
            return Ok(i);
        }
        i += 1;
    }
    proof {
        lemma_find_line_none(vl, header_seq(section), 0);
    }
    Err(DocError::SectionNotFound)
}

/// Locate the separator line that closes the section whose header stands
/// at `section_start`. Fails exactly when no separator follows.
pub fn get_section_end(lines: &Vec<String>, section_start: usize) -> (r: Result<usize, DocError>)
    requires
        section_start <= lines@.len(),
    ensures
        ({
            let e = spec_section_end(view_lines(lines@), section_start as int);
            &&& (r is Ok <==> e < lines@.len())
            &&& (r matches Ok(i) ==> i == e && section_start <= i && view_lines(lines@)[i as int]
                == separator_seq())
            &&& (r matches Err(err) ==> err == DocError::SectionMalformed && e == lines@.len())
        }),
{
    let ghost vl = view_lines(lines@);
    let sep = separator_line();
    let mut i: usize = section_start;
    while i < lines.len()
        invariant
            section_start <= i <= lines@.len(),
            sep@ == separator_seq(),
            vl == view_lines(lines@),
            forall|j: int| section_start <= j < i ==> vl[j] != separator_seq(),
        decreases lines@.len() - i,
    {
        if lines[i].eq(&sep) {
            proof {
                lemma_find_line_at(vl, separator_seq(), section_start as int, i as int);
            }
            return Ok(i);
        }
        i += 1;
    }
    proof {
        lemma_find_line_none(vl, separator_seq(), section_start as int);
    }
    Err(DocError::SectionMalformed)
}

/// Locate a section's header and the separator that closes it. The body of
/// the section is the span strictly between the two positions.
pub fn get_section_indexes(lines: &Vec<String>, section: TaskStatus) -> (r: Result<
    (usize, usize),
    DocError,
>)
    ensures
        ({
            let s = spec_section_start(view_lines(lines@), section);
            let e = spec_section_end(view_lines(lines@), s);
            &&& (r is Ok <==> s < lines@.len() && e < lines@.len())
            &&& (r matches Ok(p) ==> p.0 == s && p.1 == e && p.0 < p.1)
            &&& (r matches Err(err) ==> (if s == lines@.len() {
                err == DocError::SectionNotFound
            } else {
                err == DocError::SectionMalformed && e == lines@.len()
            }))
        }),
{
    let start = match get_section_start(lines, section) {
        Ok(s) => s,
        Err(e) => {
            return Err(e);
        },
    };
    let end = match get_section_end(lines, start) {
        Ok(e) => e,
        Err(e) => {
            return Err(e);
        },
    };
    proof {
        crate::status::lemma_headers_distinct();
        assert(start != end);
    }
    Ok((start, end))
}

/// The first failure that decoding the lines of a section body, from
/// `lo` (inclusive) to `hi` (exclusive), reports — or none.
pub open spec fn body_err(
    lines: Seq<Seq<char>>,
    lo: int,
    hi: int,
    status: TaskStatus,
) -> Option<DocError>
    decreases hi - lo,
{
    if lo < 0 || hi <= lo || hi > lines.len() {
        None
    } else if line_parse_err(lines[lo], status) is Some {
        line_parse_err(lines[lo], status)
    } else {
        body_err(lines, lo + 1, hi, status)
    }
}

/// The tasks the lines of a section body hold, in their on-disk order,
/// when no line of the body provokes a failure.
pub open spec fn body_tasks(
    lines: Seq<Seq<char>>,
    lo: int,
    hi: int,
    status: TaskStatus,
) -> Seq<TaskView>
    decreases hi - lo,
{
    if lo < 0 || hi <= lo || hi > lines.len() {
        Seq::empty()
    } else {
        body_tasks(lines, lo, hi - 1, status) + (if is_task_line(lines[hi - 1]) {
            seq![decoded_view(lines[hi - 1], status)]
        } else {
            Seq::empty()
        })
    }
}

/// The tasks of a body decompose around its first line.
pub proof fn lemma_body_tasks_split_first(
    lines: Seq<Seq<char>>,
    lo: int,
    hi: int,
    status: TaskStatus,
)
    requires
        0 <= lo < hi <= lines.len(),
    ensures
        body_tasks(lines, lo, hi, status) == (if is_task_line(lines[lo]) {
            seq![decoded_view(lines[lo], status)]
        } else {
            Seq::<TaskView>::empty()
        }) + body_tasks(lines, lo + 1, hi, status),
    decreases hi - lo,
{
    let first = if is_task_line(lines[lo]) {
        seq![decoded_view(lines[lo], status)]
    } else {
        Seq::<TaskView>::empty()
    };
    if hi == lo + 1 {
        assert(body_tasks(lines, lo, lo, status) == Seq::<TaskView>::empty());
        assert(body_tasks(lines, lo + 1, hi, status) == Seq::<TaskView>::empty());
        assert(body_tasks(lines, lo, hi, status) =~= first + body_tasks(lines, lo + 1, hi, status));
    } else {
        lemma_body_tasks_split_first(lines, lo, hi - 1, status);
        assert(body_tasks(lines, lo, hi, status) =~= first + body_tasks(lines, lo + 1, hi, status));
    }
}

/// The outcome of reading one section: the span where it stands is
/// located, then every line of its body is decoded.
pub open spec fn spec_parse_section(lines: Seq<Seq<char>>, status: TaskStatus) -> Result<
    Seq<TaskView>,
    DocError,
> {
    let s = spec_section_start(lines, status);
    if s == lines.len() {
        Err(DocError::SectionNotFound)
    } else {
        let e = spec_section_end(lines, s);
        if e == lines.len() {
            Err(DocError::SectionMalformed)
        } else {
            match body_err(lines, s + 1, e, status) {
                Some(err) => Err(err),
                None => Ok(body_tasks(lines, s + 1, e, status)),
            }
        }
    }
}

/// The outcome of reading a whole document: the three sections are read
/// in their fixed order and their tasks are concatenated.
pub open spec fn spec_parse(lines: Seq<Seq<char>>) -> Result<Seq<TaskView>, DocError> {
    match spec_parse_section(lines, TaskStatus::Selected) {
        Err(e) => Err(e),
        Ok(a) => match spec_parse_section(lines, TaskStatus::Incomplete) {
            Err(e) => Err(e),
            Ok(b) => match spec_parse_section(lines, TaskStatus::Complete) {
                Err(e) => Err(e),
                Ok(c) => Ok(a + b + c),
            },
        },
    }
}

/// Read one section of the document into tasks.
fn parse_section(lines: &Vec<String>, status: TaskStatus) -> (r: Result<Vec<Task>, DocError>)
    ensures
        ({
            let sp = spec_parse_section(view_lines(lines@), status);
            &&& (r is Ok <==> sp is Ok)
            &&& (r matches Ok(ts) ==> views_of(ts@) == sp->Ok_0)
            &&& (r matches Err(e) ==> Err::<Seq<TaskView>, DocError>(e) == sp)
        }),
{
    let ghost vl = view_lines(lines@);
    let (start, end) = match get_section_indexes(lines, status) {
        Ok(p) => p,
        Err(e) => {
            return Err(e);
        },
    };
    let mut out: Vec<Task> = Vec::new();
    let mut i: usize = start + 1;
    proof {
        assert(body_tasks(vl, start + 1, start + 1, status) == Seq::<TaskView>::empty());
        assert(views_of(out@) =~= body_tasks(vl, start + 1, start + 1, status));
    }
    while i < end
        invariant
            start + 1 <= i <= end < lines@.len(),
            vl == view_lines(lines@),
            start == spec_section_start(vl, status),
            end == spec_section_end(vl, start as int),
            views_of(out@) == body_tasks(vl, start + 1, i as int, status),
            body_err(vl, start + 1, end as int, status) == body_err(vl, i as int, end as int, status),
        decreases end - i,
    {
        let line = &lines[i];
        match parse_task_line(line, status) {
            Ok(Some(t)) => {
                out.push(t);
                proof {
                    assert(views_of(out@) =~= body_tasks(vl, start + 1, i + 1, status));
                }
            },
            Ok(None) => {
                proof {
                    assert(body_tasks(vl, start + 1, i + 1, status) =~= body_tasks(
                        vl,
                        start + 1,
                        i as int,
                        status,
                    ));
                }
            },
            Err(e) => {
                return Err(e);
            },
        }
        i += 1;
    }
    Ok(out)
}

/// Read a whole document into its tasks, in document order: the tasks of
/// SELECTED, then those of INCOMPLETE, then those of COMPLETE.
pub fn parse_document(lines: &Vec<String>) -> (r: Result<Vec<Task>, DocError>)
    ensures
        ({
            let sp = spec_parse(view_lines(lines@));
            &&& (r is Ok <==> sp is Ok)
            &&& (r matches Ok(ts) ==> views_of(ts@) == sp->Ok_0)
            &&& (r matches Err(e) ==> Err::<Seq<TaskView>, DocError>(e) == sp)
        }),
{
    let mut a = match parse_section(lines, TaskStatus::Selected) {
        Ok(v) => v,
        Err(e) => {
            return Err(e);
        },
    };
    let mut b = match parse_section(lines, TaskStatus::Incomplete) {
        Ok(v) => v,
        Err(e) => {
            return Err(e);
        },
    };
    let mut c = match parse_section(lines, TaskStatus::Complete) {
        Ok(v) => v,
        Err(e) => {
            return Err(e);
        },
    };
    let ghost va = views_of(a@);
    let ghost vb = views_of(b@);
    let ghost vc = views_of(c@);
    a.append(&mut b);
    a.append(&mut c);
    proof {
        assert(views_of(a@) =~= va + vb + vc);
    }
    Ok(a)
}

/// The tasks of the list that carry the given status, in order.
pub open spec fn filter_status(ts: Seq<TaskView>, status: TaskStatus) -> Seq<TaskView>
    decreases ts.len(),
{
    if ts.len() == 0 {
        Seq::empty()
    } else {
        filter_status(ts.drop_last(), status) + (if ts.last().status == status {
            seq![ts.last()]
        } else {
            Seq::empty()
        })
    }
}

/// The canonical line of every task of the list, in order.
pub open spec fn encode_all(f: Seq<TaskView>) -> Seq<Seq<char>> {
    Seq::new(f.len(), |i: int| encode_line(f[i]))
}

/// Encoding a list of tasks and one more is encoding the list and then
/// the one more.
pub proof fn lemma_encode_all_snoc(f: Seq<TaskView>, t: TaskView)
    ensures
        encode_all(f + seq![t]) =~= encode_all(f) + seq![encode_line(t)],
{
}

/// The lines of one section of the serialized document: its header, a
/// blank spacer, its task lines if it has any followed by a second spacer,
/// and the separator. An empty section carries no second spacer.
pub open spec fn render_section(ts: Seq<TaskView>, status: TaskStatus) -> Seq<Seq<char>> {
    let f = filter_status(ts, status);
    if f.len() == 0 {
        seq![header_seq(status), Seq::<char>::empty(), separator_seq()]
    } else {
        seq![header_seq(status), Seq::<char>::empty()] + encode_all(f) + seq![
            Seq::<char>::empty(),
            separator_seq(),
        ]
    }
}

/// The lines of the whole serialized document: the three sections in their
/// fixed order, a blank line between one section and the next.
pub open spec fn spec_render(ts: Seq<TaskView>) -> Seq<Seq<char>> {
    render_section(ts, TaskStatus::Selected) + seq![Seq::<char>::empty()] + render_section(
        ts,
        TaskStatus::Incomplete,
    ) + seq![Seq::<char>::empty()] + render_section(ts, TaskStatus::Complete)
}

/// Append one serialized section to the lines built so far: the tasks of
/// the list that carry the given status, between the section's header and
/// its separator.
pub fn add_section(lines: Vec<String>, tasks: &Vec<Task>, section: TaskStatus) -> (r: Vec<String>)
    ensures
        view_lines(r@) == view_lines(lines@) + render_section(views_of(tasks@), section),
{
    let ghost orig = view_lines(lines@);
    let ghost vt = views_of(tasks@);
    let mut out = lines;
    let ghost b0 = out@;
    let header = header_line(section);
    out.push(header);
    proof {
        lemma_view_lines_snoc(b0, out@.last());
        assert(out@ =~= b0.push(out@.last()));
    }
    let ghost b1 = out@;
    out.push(String::new());
    proof {
        lemma_view_lines_snoc(b1, out@.last());
        assert(out@ =~= b1.push(out@.last()));
    }
    let mut count: usize = 0;
    let mut i: usize = 0;
    proof {
        assert(vt.subrange(0, 0) =~= Seq::<TaskView>::empty());
        assert(view_lines(out@) =~= orig + seq![header_seq(section), Seq::<char>::empty()]
            + encode_all(filter_status(vt.subrange(0, 0), section)));
    }
    while i < tasks.len()
        invariant
            i <= tasks@.len(),
            count <= i,
            vt == views_of(tasks@),
            count == filter_status(vt.subrange(0, i as int), section).len(),
            view_lines(out@) == orig + seq![header_seq(section), Seq::<char>::empty()]
                + encode_all(filter_status(vt.subrange(0, i as int), section)),
        decreases tasks@.len() - i,
    {
        let ghost pre = vt.subrange(0, i as int);
        let ghost cur = vt.subrange(0, i + 1);
        proof {
            assert(cur.drop_last() =~= pre);
            assert(cur.last() == vt[i as int]);
        }
        if tasks[i].task_status == section {
            let line = tasks[i].to_markdown();
            let ghost bl = out@;
            out.push(line);
            proof {
                lemma_view_lines_snoc(bl, out@.last());
                assert(out@ =~= bl.push(out@.last()));
                assert(out@.last()@ == encode_line(vt[i as int]));
                assert(filter_status(cur, section) =~= filter_status(pre, section) + seq![
                    vt[i as int],
                ]);
                lemma_encode_all_snoc(filter_status(pre, section), vt[i as int]);
                assert(view_lines(out@) =~= orig + seq![
                    header_seq(section),
                    Seq::<char>::empty(),
                ] + encode_all(filter_status(cur, section)));
            }
            count += 1;
        } else {
            proof {
                assert(filter_status(cur, section) =~= filter_status(pre, section));
            }
        }
        i += 1;
    }
    let ghost f = filter_status(vt, section);
    proof {
        assert(vt.subrange(0, vt.len() as int) =~= vt);
        assert(view_lines(out@) == orig + seq![header_seq(section), Seq::<char>::empty()]
            + encode_all(f));
        assert(count == f.len());
    }
    if count != 0 {
        let ghost b2 = out@;
        out.push(String::new());
        proof {
            lemma_view_lines_snoc(b2, out@.last());
            assert(out@ =~= b2.push(out@.last()));
            assert(view_lines(out@) =~= orig + seq![header_seq(section), Seq::<char>::empty()]
                + encode_all(f) + seq![Seq::<char>::empty()]);
        }
    }
    let ghost b3 = out@;
    out.push(separator_line());
    proof {
        lemma_view_lines_snoc(b3, out@.last());
        assert(out@ =~= b3.push(out@.last()));
        if f.len() == 0 {
            assert(encode_all(f).len() == 0);
            assert(render_section(vt, section) =~= seq![
                header_seq(section),
                Seq::<char>::empty(),
                separator_seq(),
            ]);
            assert(view_lines(out@) =~= orig + render_section(vt, section));
        } else {
            assert(render_section(vt, section) =~= seq![
                header_seq(section),
                Seq::<char>::empty(),
            ] + encode_all(f) + seq![Seq::<char>::empty(), separator_seq()]);
            assert(view_lines(out@) =~= orig + render_section(vt, section));
        }
    }
    out
}

/// Serialize a task list to the full document, section by section.
pub fn render_document(tasks: &Vec<Task>) -> (r: Vec<String>)
    ensures
        view_lines(r@) == spec_render(views_of(tasks@)),
{
    let ghost vt = views_of(tasks@);
    let mut lines: Vec<String> = Vec::new();
    proof {
        assert(view_lines(lines@) =~= Seq::<Seq<char>>::empty());
    }
    lines = add_section(lines, tasks, TaskStatus::Selected);
    proof {
        assert(view_lines(lines@) =~= render_section(vt, TaskStatus::Selected));
    }
    let ghost b1 = lines@;
    lines.push(String::new());
    proof {
        lemma_view_lines_snoc(b1, lines@.last());
        assert(lines@ =~= b1.push(lines@.last()));
        assert(view_lines(lines@) =~= render_section(vt, TaskStatus::Selected) + seq![
            Seq::<char>::empty(),
        ]);
    }
    let ghost l1 = view_lines(lines@);
    lines = add_section(lines, tasks, TaskStatus::Incomplete);
    proof {
        assert(view_lines(lines@) == l1 + render_section(vt, TaskStatus::Incomplete));
    }
    let ghost b2 = lines@;
    lines.push(String::new());
    proof {
        lemma_view_lines_snoc(b2, lines@.last());
        assert(lines@ =~= b2.push(lines@.last()));
        assert(view_lines(lines@) =~= l1 + render_section(vt, TaskStatus::Incomplete) + seq![
            Seq::<char>::empty(),
        ]);
    }
    let ghost l2 = view_lines(lines@);
    lines = add_section(lines, tasks, TaskStatus::Complete);
    proof {
        assert(view_lines(lines@) == l2 + render_section(vt, TaskStatus::Complete));
        assert(view_lines(lines@) =~= spec_render(vt));
    }
    lines
}

/// The lines of the canonical empty document: three sections, each with an
/// empty body.
pub fn empty_document_lines() -> (r: Vec<String>)
    ensures
        view_lines(r@) == spec_render(Seq::<TaskView>::empty()),
{
    let tasks: Vec<Task> = Vec::new();
    let r = render_document(&tasks);
    proof {
        assert(views_of(tasks@) =~= Seq::<TaskView>::empty());
    }
    r
}

} // verus!
