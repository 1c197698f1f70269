use vstd::prelude::*;
use crate::document::{
    parse_document,
    render_document,
    spec_parse,
    spec_render,
    view_lines,
    views_of,
};
use crate::error::DocError;
use crate::status::{status_in, TaskStatus};
use crate::task::{get_task_id, spec_line_id, Task, TaskView};

verus! {

/// The tasks of the list whose status lies in the given set, in order.
pub open spec fn filter_status_in(ts: Seq<TaskView>, sections: Seq<TaskStatus>) -> Seq<TaskView>
    decreases ts.len(),
{
    if ts.len() == 0 {
        Seq::empty()
    } else {
        (if sections.contains(ts[0].status) {
            seq![ts[0]]
        } else {
            Seq::empty()
        }) + filter_status_in(ts.drop_first(), sections)
    }
}

/// The largest identifier of the list, or zero for an empty list.
pub open spec fn max_id(ts: Seq<TaskView>) -> nat
    decreases ts.len(),
{
    if ts.len() == 0 {
        0
    } else {
        let m = max_id(ts.drop_last());
        if ts.last().id > m {
            ts.last().id
        } else {
            m
        }
    }
}

/// The identifier the allocator hands to a new task: one more than the
/// largest identifier present, or zero for a document without tasks.
pub open spec fn alloc_id(ts: Seq<TaskView>) -> nat {
    if ts.len() == 0 {
        0
    } else {
        max_id(ts) + 1
    }
}

/// No identifier of the list exceeds its largest identifier.
pub proof fn lemma_max_id_ge(ts: Seq<TaskView>)
    ensures
        forall|i: int| 0 <= i < ts.len() ==> #[trigger] ts[i].id <= max_id(ts),
    decreases ts.len(),
{
    if ts.len() > 0 {
        lemma_max_id_ge(ts.drop_last());
        assert forall|i: int| 0 <= i < ts.len() implies #[trigger] ts[i].id <= max_id(ts) by {
            if i < ts.len() - 1 {
                assert(ts.drop_last()[i] == ts[i]);
            }
        }
    }
}

/// The position of the first task carrying the given identifier, or the
/// length of the list when no task carries it. The list is scanned in
/// document order, so the sections are searched in their fixed order.
pub open spec fn find_index(ts: Seq<TaskView>, id: nat) -> int
    decreases ts.len(),
{
    if ts.len() == 0 {
        0
    } else if ts[0].id == id {
        0
    } else {
        1 + find_index(ts.drop_first(), id)
    }
}

/// What the found position means: it is the first position carrying the
/// identifier, and past the end exactly when no position carries it.
pub proof fn lemma_find_index(ts: Seq<TaskView>, id: nat)
    ensures
        0 <= find_index(ts, id) <= ts.len(),
        find_index(ts, id) < ts.len() ==> ts[find_index(ts, id)].id == id,
        forall|j: int| 0 <= j < find_index(ts, id) ==> ts[j].id != id,
    decreases ts.len(),
{
    if ts.len() > 0 && ts[0].id != id {
        lemma_find_index(ts.drop_first(), id);
        let f = find_index(ts, id);
        assert(f == 1 + find_index(ts.drop_first(), id));
        if f < ts.len() {
            assert(ts.drop_first()[f - 1] == ts[f]);
        }
        assert forall|j: int| 0 <= j < f implies ts[j].id != id by {
            if j > 0 {
                assert(ts.drop_first()[j - 1] == ts[j]);
            }
        }
    }
}

/// The outcome of listing the tasks whose status lies in the filter.
pub open spec fn spec_list(lines: Seq<Seq<char>>, sections: Seq<TaskStatus>) -> Result<
    Seq<TaskView>,
    DocError,
> {
    match spec_parse(lines) {
        Err(e) => Err(e),
        Ok(ts) => Ok(filter_status_in(ts, sections)),
    }
}

/// The outcome of adding a task: the document gains a line for a task
/// with the allocated identifier, the given text and the destination
/// status, at the top of the destination section.
pub open spec fn spec_add(lines: Seq<Seq<char>>, text: Seq<char>, dest: TaskStatus) -> Result<
    (Seq<Seq<char>>, nat),
    DocError,
> {
    match spec_parse(lines) {
        Err(e) => Err(e),
        Ok(ts) => {
            let nid = alloc_id(ts);
            let nt = TaskView { id: nid, text: text, status: dest };
            Ok((spec_render(seq![nt] + ts), nid))
        },
    }
}

/// The outcome of moving a task: the first task carrying the identifier
/// leaves its section and enters the destination section at the top, with
/// its status updated — unless its current status is a forbidden source,
/// or no task carries the identifier.
pub open spec fn spec_move(
    lines: Seq<Seq<char>>,
    id: nat,
    dest: TaskStatus,
    forbidden: Seq<TaskStatus>,
) -> Result<Seq<Seq<char>>, DocError> {
    match spec_parse(lines) {
        Err(e) => Err(e),
        Ok(ts) => {
            let i = find_index(ts, id);
            if i == ts.len() {
                Err(DocError::TaskNotFound)
            } else if forbidden.contains(ts[i].status) {
                Err(DocError::AlreadyInTargetState)
            } else {
                let moved = TaskView { id: ts[i].id, text: ts[i].text, status: dest };
                Ok(spec_render(seq![moved] + ts.remove(i)))
            }
        },
    }
}

/// List the tasks of the document whose status lies in `sections`, in
/// document order: the matching tasks of SELECTED, then those of
/// INCOMPLETE, then those of COMPLETE. Read-only; fails exactly when the
/// document does not parse.
pub fn get_tasks_in_sections(lines: &Vec<String>, sections: &Vec<TaskStatus>) -> (r: Result<
    Vec<Task>,
    DocError,
>)
    ensures
        ({
            let sp = spec_list(view_lines(lines@), sections@);
            &&& (r is Ok <==> sp is Ok)
            &&& (r matches Ok(ts) ==> views_of(ts@) == sp->Ok_0)
            &&& (r matches Err(e) ==> Err::<Seq<TaskView>, DocError>(e) == sp)
        }),
{
    let mut ts = match parse_document(lines) {
        Ok(v) => v,
        Err(e) => {
            return Err(e);
        },
    };
    let ghost full = views_of(ts@);
    let mut out: Vec<Task> = Vec::new();
    proof {
        assert(views_of(out@) + filter_status_in(views_of(ts@), sections@) =~= filter_status_in(
            full,
            sections@,
        ));
    }
    while ts.len() > 0
        invariant
            views_of(out@) + filter_status_in(views_of(ts@), sections@) == filter_status_in(
                full,
                sections@,
            ),
        decreases ts@.len(),
    {
        let ghost pre_out = views_of(out@);
        let ghost pre_ts = views_of(ts@);
        let t = ts.remove(0);
        proof {
            assert(views_of(ts@) =~= pre_ts.drop_first());
            assert(t@ == pre_ts[0]);
        }
        if status_in(sections, t.task_status) {
            let ghost bo = out@;
            out.push(t);
            proof {
                assert(views_of(out@) =~= pre_out + seq![pre_ts[0]]);
                assert(views_of(out@) + filter_status_in(views_of(ts@), sections@) =~= (pre_out
                    + filter_status_in(pre_ts, sections@)));
            }
        } else {
            proof {
                assert(views_of(out@) + filter_status_in(views_of(ts@), sections@) =~= (pre_out
                    + filter_status_in(pre_ts, sections@)));
            }
        }
    }
    proof {
        assert(views_of(ts@).len() == 0);
        assert(filter_status_in(views_of(ts@), sections@) =~= Seq::<TaskView>::empty());
        assert(views_of(out@) =~= filter_status_in(full, sections@));
    }
    Ok(out)
}

/// Add a new task with the given text to the top of the destination
/// section, with the next free identifier. Returns the new lines and the
/// identifier; never fails once the document parses.
pub fn add_task(lines: &Vec<String>, text: String, dest: TaskStatus) -> (r: Result<
    (Vec<String>, usize),
    DocError,
>)
    requires
        spec_parse(view_lines(lines@)) matches Ok(ts) ==> max_id(ts) < usize::MAX,
    ensures
        ({
            let sp = spec_add(view_lines(lines@), text@, dest);
            &&& (r is Ok <==> sp is Ok)
            &&& (r matches Ok(p) ==> sp matches Ok(q) && view_lines(p.0@) == q.0 && p.1 == q.1)
            &&& (r matches Err(e) ==> Err::<(Seq<Seq<char>>, nat), DocError>(e) == sp)
        }),
{
    let mut ts = match parse_document(lines) {
        Ok(v) => v,
        Err(e) => {
            return Err(e);
        },
    };
    let ghost full = views_of(ts@);
    let mut m: usize = 0;
    let mut i: usize = 0;
    proof {
        assert(full.subrange(0, 0) =~= Seq::<TaskView>::empty());
    }
    while i < ts.len()
        invariant
            i <= ts@.len(),
            full == views_of(ts@),
            m == max_id(full.subrange(0, i as int)),
        decreases ts@.len() - i,
    {
        let ghost pre = full.subrange(0, i as int);
        let ghost cur = full.subrange(0, i + 1);
        proof {
            assert(cur.drop_last() =~= pre);
            assert(cur.last() == full[i as int]);
        }
        let tid = ts[i].id;
        if tid > m {
            m = tid;
        }
        i += 1;
    }
    proof {
        assert(full.subrange(0, full.len() as int) =~= full);
    }
    let nid: usize = if ts.len() == 0 {
        0
    } else {
        m + 1
    };
    let nt = Task { id: nid, task: text, task_status: dest };
    let ghost ntv = nt@;
    ts.insert(0, nt);
    proof {
        assert(views_of(ts@) =~= seq![ntv] + full);
    }
    let rendered = render_document(&ts);
    proof {
        assert(ntv == TaskView { id: alloc_id(full), text: text@, status: dest });
    }
    Ok((rendered, nid))
}

/// Move the task carrying the given identifier to the destination
/// section, updating its status. The sections are searched in their fixed
/// order; a task found in a forbidden source status is rejected, and an
/// unknown identifier fails. On success the task stands at the top of the
/// destination section and every other task is unchanged.
pub fn move_task_to_section(
    id: usize,
    lines: &Vec<String>,
    section: TaskStatus,
    forbidden_sections: Vec<TaskStatus>,
) -> (r: Result<Vec<String>, DocError>)
    ensures
        ({
            let sp = spec_move(view_lines(lines@), id as nat, section, forbidden_sections@);
            &&& (r is Ok <==> sp is Ok)
            &&& (r matches Ok(v) ==> sp matches Ok(q) && view_lines(v@) == q)
            &&& (r matches Err(e) ==> Err::<Seq<Seq<char>>, DocError>(e) == sp)
        }),
{
    let mut ts = match parse_document(lines) {
        Ok(v) => v,
        Err(e) => {
            return Err(e);
        },
    };
    let ghost full = views_of(ts@);
    let mut i: usize = 0;
    while i < ts.len()
        invariant
            i <= ts@.len(),
            full == views_of(ts@),
            spec_parse(view_lines(lines@)) == Ok::<Seq<TaskView>, DocError>(full),
            forall|j: int| 0 <= j < i ==> full[j].id != id as nat,
        decreases ts@.len() - i,
    {
        if ts[i].id == id {
            proof {
                lemma_find_index(full, id as nat);
                assert(find_index(full, id as nat) == i);
            }
            if status_in(&forbidden_sections, ts[i].task_status) {
                return Err(DocError::AlreadyInTargetState);
            }
            let mut t = ts.remove(i);
            let ghost rest = views_of(ts@);
            proof {
                assert(rest =~= full.remove(i as int));
            }
            t.task_status = section;
            let ghost moved = t@;
            ts.insert(0, t);
            proof {
                assert(views_of(ts@) =~= seq![moved] + rest);
                assert(moved == TaskView {
                    id: full[i as int].id,
                    text: full[i as int].text,
                    status: section,
                });
            }
            let rendered = render_document(&ts);
            return Ok(rendered);
        }
        i += 1;
    }
    proof {
        lemma_find_index(full, id as nat);
        assert(find_index(full, id as nat) == full.len());
    }
    Err(DocError::TaskNotFound)
}

/// The largest identifier any line of the document carries in its
/// identifier field, if any line carries one.
pub open spec fn lines_max_id(lines: Seq<Seq<char>>) -> Option<nat>
    decreases lines.len(),
{
    if lines.len() == 0 {
        None
    } else {
        let rest = lines_max_id(lines.drop_last());
        match spec_line_id(lines.last()) {
            None => rest,
            Some(v) => match rest {
                None => Some(v),
                Some(m) => Some(if v > m {
                    v
                } else {
                    m
                }),
            },
        }
    }
}

/// The identifier to hand to the next new task, read off the raw lines:
/// one more than the largest identifier any line carries, or zero when no
/// line carries one.
pub fn get_next_id(lines: &Vec<String>) -> (r: usize)
    requires
        lines_max_id(view_lines(lines@)) matches Some(m) ==> m < usize::MAX,
    ensures
        r as nat == match lines_max_id(view_lines(lines@)) {
            None => 0,
            Some(m) => m + 1,
        },
{
    let ghost vl = view_lines(lines@);
    let mut best: Option<usize> = None;
    let mut i: usize = 0;
    proof {
        assert(vl.subrange(0, 0) =~= Seq::<Seq<char>>::empty());
    }
    while i < lines.len()
        invariant
            i <= lines@.len(),
            vl == view_lines(lines@),
            (best is Some <==> lines_max_id(vl.subrange(0, i as int)) is Some),
            best matches Some(b) ==> lines_max_id(vl.subrange(0, i as int)) == Some(b as nat),
        decreases lines@.len() - i,
    {
        let ghost pre = vl.subrange(0, i as int);
        let ghost cur = vl.subrange(0, i + 1);
        proof {
            assert(cur.drop_last() =~= pre);
            assert(cur.last() == vl[i as int]);
        }
        match get_task_id(&lines[i]) {
            Ok(v) => {
                best = match best {
                    None => Some(v),
                    Some(b) => if v > b {
                        Some(v)
                    } else {
                        Some(b)
                    },
                };
            },
            Err(_) => {},
        }
        i += 1;
    }
    proof {
        assert(vl.subrange(0, vl.len() as int) =~= vl);
    }
    match best {
        None => 0,
        Some(b) => b + 1,
    }
}

} // verus!
