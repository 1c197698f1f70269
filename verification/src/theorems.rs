use vstd::prelude::*;
use crate::document::{
    body_err,
    body_tasks,
    encode_all,
    filter_status,
    find_line,
    lemma_body_tasks_split_first,
    lemma_find_line_at,
    lemma_find_line_bounds,
    render_section,
    spec_parse,
    spec_parse_section,
    spec_render,
    spec_section_end,
    spec_section_start,
};
use crate::engine::{
    alloc_id,
    filter_status_in,
    find_index,
    lemma_find_index,
    lemma_max_id_ge,
    max_id,
    spec_add,
    spec_list,
    spec_move,
};
use crate::error::DocError;
use crate::status::{header_seq, lemma_headers_distinct, separator_seq, TaskStatus};
use crate::task::{
    decoded_view,
    encode_line,
    is_task_line,
    lemma_decode_encode,
    lemma_encode_not_special,
    lemma_specials_not_task_lines,
    line_parse_err,
    task_line_wf,
    task_view_wf,
    TaskView,
};

verus! {

/// The tasks of a document in section order: those of SELECTED, then
/// those of INCOMPLETE, then those of COMPLETE, each group in its own
/// order.
pub open spec fn section_order(ts: Seq<TaskView>) -> Seq<TaskView> {
    filter_status(ts, TaskStatus::Selected) + filter_status(ts, TaskStatus::Incomplete)
        + filter_status(ts, TaskStatus::Complete)
}

/// No two tasks of the list share an identifier.
pub open spec fn ids_unique(ts: Seq<TaskView>) -> bool {
    forall|i: int, j: int| 0 <= i < j < ts.len() ==> ts[i].id != ts[j].id
}

/// Filtering by status distributes over concatenation.
pub proof fn lemma_filter_status_concat(xs: Seq<TaskView>, ys: Seq<TaskView>, status: TaskStatus)
    ensures
        filter_status(xs + ys, status) == filter_status(xs, status) + filter_status(ys, status),
    decreases ys.len(),
{
    if ys.len() == 0 {
        assert(xs + ys =~= xs);
        assert(filter_status(ys, status) =~= Seq::<TaskView>::empty());
        assert(filter_status(xs, status) + filter_status(ys, status) =~= filter_status(
            xs,
            status,
        ));
    } else {
        lemma_filter_status_concat(xs, ys.drop_last(), status);
        assert((xs + ys).drop_last() =~= xs + ys.drop_last());
        assert((xs + ys).last() == ys.last());
        assert(filter_status(xs + ys, status) =~= filter_status(xs, status) + filter_status(
            ys,
            status,
        ));
    }
}

/// What filtering a list whose tasks all carry one status yields: the
/// whole list for that status, nothing for any other.
pub proof fn lemma_filter_homogeneous(xs: Seq<TaskView>, status: TaskStatus)
    requires
        forall|k: int| 0 <= k < xs.len() ==> #[trigger] xs[k].status == status,
    ensures
        filter_status(xs, status) == xs,
        forall|other: TaskStatus|
            other != status ==> #[trigger] filter_status(xs, other) == Seq::<TaskView>::empty(),
    decreases xs.len(),
{
    if xs.len() == 0 {
        assert(filter_status(xs, status) =~= xs);
        assert forall|other: TaskStatus| other != status implies #[trigger] filter_status(
            xs,
            other,
        ) == Seq::<TaskView>::empty() by {
            assert(filter_status(xs, other) =~= Seq::<TaskView>::empty());
        }
    } else {
        assert(forall|k: int|
            0 <= k < xs.drop_last().len() ==> #[trigger] xs.drop_last()[k].status == status);
        lemma_filter_homogeneous(xs.drop_last(), status);
        assert(xs.last().status == status);
        assert(filter_status(xs, status) =~= xs);
        assert forall|other: TaskStatus| other != status implies #[trigger] filter_status(
            xs,
            other,
        ) == Seq::<TaskView>::empty() by {
            assert(filter_status(xs.drop_last(), other) == Seq::<TaskView>::empty());
            assert(xs.last().status != other);
            assert(filter_status(xs, other) =~= Seq::<TaskView>::empty());
        }
    }
}

/// Every task of a filtered list is a task of the list.
pub proof fn lemma_filter_status_elems(ts: Seq<TaskView>, status: TaskStatus)
    ensures
        forall|k: int|
            0 <= k < filter_status(ts, status).len() ==> (#[trigger] filter_status(
                ts,
                status,
            )[k]).status == status && ts.contains(filter_status(ts, status)[k]),
    decreases ts.len(),
{
    if ts.len() > 0 {
        lemma_filter_status_elems(ts.drop_last(), status);
        let f = filter_status(ts, status);
        let fp = filter_status(ts.drop_last(), status);
        assert forall|k: int| 0 <= k < f.len() implies (#[trigger] f[k]).status == status
            && ts.contains(f[k]) by {
            if k < fp.len() {
                assert(f[k] == fp[k]);
                let j = choose|j: int| 0 <= j < ts.drop_last().len() && ts.drop_last()[j] == fp[k];
                assert(ts[j] == fp[k]);
            } else {
                assert(f[k] == ts.last());
                assert(ts[ts.len() - 1] == ts.last());
            }
        }
    }
}

/// A task of the list whose status is filtered for is kept by the filter.
pub proof fn lemma_filter_status_contains(ts: Seq<TaskView>, status: TaskStatus, j: int)
    requires
        0 <= j < ts.len(),
        ts[j].status == status,
    ensures
        filter_status(ts, status).contains(ts[j]),
    decreases ts.len(),
{
    if j == ts.len() - 1 {
        let f = filter_status(ts, status);
        assert(f.last() == ts.last());
        assert(f[f.len() - 1] == ts[j]);
    } else {
        assert(ts.drop_last()[j] == ts[j]);
        lemma_filter_status_contains(ts.drop_last(), status, j);
        let fp = filter_status(ts.drop_last(), status);
        let k = choose|k: int| 0 <= k < fp.len() && fp[k] == ts[j];
        assert(filter_status(ts, status)[k] == ts[j]);
    }
}

/// Each task of the list is counted by exactly one of the three filters.
pub proof fn lemma_filter_lens(ts: Seq<TaskView>)
    ensures
        filter_status(ts, TaskStatus::Selected).len() + filter_status(
            ts,
            TaskStatus::Incomplete,
        ).len() + filter_status(ts, TaskStatus::Complete).len() == ts.len(),
    decreases ts.len(),
{
    if ts.len() > 0 {
        lemma_filter_lens(ts.drop_last());
    }
}

/// Every task a filter keeps is well formed and carries the filtered
/// status, when the whole list is well formed.
pub proof fn lemma_filter_wf(ts: Seq<TaskView>, status: TaskStatus)
    requires
        forall|i: int| 0 <= i < ts.len() ==> task_view_wf(#[trigger] ts[i]),
    ensures
        forall|k: int|
            0 <= k < filter_status(ts, status).len() ==> task_view_wf(
                #[trigger] filter_status(ts, status)[k],
            ) && filter_status(ts, status)[k].status == status,
{
    lemma_filter_status_elems(ts, status);
    let f = filter_status(ts, status);
    assert forall|k: int| 0 <= k < f.len() implies task_view_wf(#[trigger] f[k]) && f[k].status
        == status by {
        let j = choose|j: int| 0 <= j < ts.len() && ts[j] == f[k];
        assert(task_view_wf(ts[j]));
    }
}

/// A body scan reports no failure exactly when no line of the body
/// provokes one.
pub proof fn lemma_body_err_none_iff(lines: Seq<Seq<char>>, lo: int, hi: int, status: TaskStatus)
    requires
        0 <= lo,
        hi <= lines.len(),
    ensures
        body_err(lines, lo, hi, status) is None <==> (forall|j: int|
            lo <= j < hi ==> #[trigger] line_parse_err(lines[j], status) is None),
    decreases hi - lo,
{
    if lo < hi {
        lemma_body_err_none_iff(lines, lo + 1, hi, status);
    }
}

/// Scanning a run of encoded tasks of one status yields those very tasks
/// and no failure.
pub proof fn lemma_scan_encoded(lines: Seq<Seq<char>>, lo: int, f: Seq<TaskView>, status: TaskStatus)
    requires
        0 <= lo,
        lo + f.len() <= lines.len(),
        forall|k: int| 0 <= k < f.len() ==> lines[lo + k] == encode_line(#[trigger] f[k]),
        forall|k: int| 0 <= k < f.len() ==> task_view_wf(#[trigger] f[k]) && f[k].status == status,
    ensures
        body_err(lines, lo, lo + f.len(), status) is None,
        body_tasks(lines, lo, lo + f.len(), status) == f,
    decreases f.len(),
{
    if f.len() == 0 {
        assert(body_tasks(lines, lo, lo, status) =~= f);
    } else {
        lemma_decode_encode(f[0]);
        assert(lines[lo] == encode_line(f[0]));
        let rest = f.drop_first();
        assert forall|k: int| 0 <= k < rest.len() implies lines[lo + 1 + k] == encode_line(
            #[trigger] rest[k],
        ) by {
            assert(rest[k] == f[k + 1]);
        }
        assert(forall|k: int|
            0 <= k < rest.len() ==> task_view_wf(#[trigger] rest[k]) && rest[k].status == status);
        lemma_scan_encoded(lines, lo + 1, rest, status);
        lemma_body_tasks_split_first(lines, lo, lo + f.len(), status);
        assert(decoded_view(lines[lo], status) == f[0]);
        assert(body_tasks(lines, lo, lo + f.len(), status) =~= seq![f[0]] + rest);
        assert(seq![f[0]] + rest =~= f);
        lemma_body_err_none_iff(lines, lo + 1, lo + f.len(), status);
        lemma_body_err_none_iff(lines, lo, lo + f.len(), status);
        assert forall|j: int| lo <= j < lo + f.len() implies #[trigger] line_parse_err(
            lines[j],
            status,
        ) is None by {
            if j > lo {
                assert(line_parse_err(lines[j], status) is None);
            }
        }
    }
}

/// The shape of one serialized section: the header first, the separator
/// last, a spacer below the header, the encoded tasks in between, and no
/// line but the first and last that could be taken for a header or a
/// separator.
pub proof fn lemma_render_section_shape(ts: Seq<TaskView>, status: TaskStatus)
    requires
        forall|i: int| 0 <= i < ts.len() ==> task_view_wf(#[trigger] ts[i]),
    ensures
        ({
            let r = render_section(ts, status);
            let f = filter_status(ts, status);
            &&& r.len() == (if f.len() == 0 {
                3int
            } else {
                f.len() + 4int
            })
            &&& r[0] == header_seq(status)
            &&& r[1] == Seq::<char>::empty()
            &&& r[r.len() - 1] == separator_seq()
            &&& forall|j: int| 0 < j < r.len() - 1 ==> #[trigger] r[j] != separator_seq()
            &&& forall|j: int, s2: TaskStatus|
                #![trigger r[j], header_seq(s2)]
                0 < j < r.len() ==> r[j] != header_seq(s2)
            &&& (f.len() > 0 ==> forall|k: int|
                0 <= k < f.len() ==> #[trigger] r[2 + k] == encode_line(f[k]))
            &&& (f.len() > 0 ==> r[r.len() - 2] == Seq::<char>::empty())
        }),
{
    let r = render_section(ts, status);
    let f = filter_status(ts, status);
    lemma_headers_distinct();
    lemma_filter_wf(ts, status);
    assert forall|s2: TaskStatus| Seq::<char>::empty() != header_seq(s2) by {
        assert(header_seq(s2).len() >= 12);
    }
    assert(separator_seq().len() == 3);
    assert(Seq::<char>::empty() != separator_seq());
    if f.len() == 0 {
        assert(r =~= seq![header_seq(status), Seq::<char>::empty(), separator_seq()]);
    } else {
        assert forall|k: int| 0 <= k < f.len() implies #[trigger] r[2 + k] == encode_line(
            f[k],
        ) by {
            assert(encode_all(f)[k] == encode_line(f[k]));
        }
        assert forall|j: int, s2: TaskStatus|
            #![trigger r[j], header_seq(s2)]
            0 < j < r.len() implies r[j] != header_seq(s2) by {
            if 2 <= j < 2 + f.len() {
                assert(r[j] == encode_all(f)[j - 2]);
                lemma_encode_not_special(f[j - 2]);
            }
        }
        assert forall|j: int| 0 < j < r.len() - 1 implies #[trigger] r[j] != separator_seq() by {
            if 2 <= j < 2 + f.len() {
                assert(r[j] == encode_all(f)[j - 2]);
                lemma_encode_not_special(f[j - 2]);
            }
        }
    }
}

/// Scanning the body of a serialized section, wherever it stands inside a
/// larger document, yields exactly the tasks the section was rendered
/// from, and no failure.
pub proof fn lemma_section_box(
    lines: Seq<Seq<char>>,
    ts: Seq<TaskView>,
    status: TaskStatus,
    h: int,
)
    requires
        forall|i: int| 0 <= i < ts.len() ==> task_view_wf(#[trigger] ts[i]),
        0 <= h,
        h + render_section(ts, status).len() <= lines.len(),
        forall|j: int|
            h <= j < h + render_section(ts, status).len() ==> #[trigger] lines[j]
                == render_section(ts, status)[j - h],
    ensures
        ({
            let r = render_section(ts, status);
            let f = filter_status(ts, status);
            &&& body_err(lines, h + 1, h + r.len() - 1, status) is None
            &&& body_tasks(lines, h + 1, h + r.len() - 1, status) == f
        }),
{
    let r = render_section(ts, status);
    let f = filter_status(ts, status);
    lemma_render_section_shape(ts, status);
    lemma_filter_wf(ts, status);
    lemma_specials_not_task_lines();
    if f.len() == 0 {
        assert(lines[h + 1] == r[1]);
        assert(!is_task_line(lines[h + 1]));
        assert(body_tasks(lines, h + 1, h + 1, status) == Seq::<TaskView>::empty());
        assert(body_tasks(lines, h + 1, h + 2, status) =~= f);
        lemma_body_err_none_iff(lines, h + 1, h + 2, status);
    } else {
        assert(lines[h + 1] == r[1]);
        assert(lines[h + r.len() - 2] == r[r.len() - 2]);
        assert forall|k: int| 0 <= k < f.len() implies lines[h + 2 + k] == encode_line(
            #[trigger] f[k],
        ) by {
            assert(lines[h + 2 + k] == r[(h + 2 + k) - h]);
            assert((h + 2 + k) - h == 2 + k);
            assert(r[2 + k] == encode_line(f[k]));
        }
        lemma_scan_encoded(lines, h + 2, f, status);
        // The scan of the body: the leading spacer, the encoded tasks, the
        // trailing spacer.
        let hi = h + r.len() - 1;
        assert(hi - 1 == h + 2 + f.len());
        assert(body_tasks(lines, h + 1, hi, status) == body_tasks(lines, h + 1, hi - 1, status));
        lemma_body_tasks_split_first(lines, h + 1, hi - 1, status);
        assert(body_tasks(lines, h + 1, hi - 1, status) =~= body_tasks(
            lines,
            h + 2,
            h + 2 + f.len(),
            status,
        ));
        assert(body_tasks(lines, h + 1, hi, status) =~= f);
        lemma_body_err_none_iff(lines, h + 2, h + 2 + f.len(), status);
        lemma_body_err_none_iff(lines, h + 1, hi, status);
        assert forall|j: int| h + 1 <= j < hi implies #[trigger] line_parse_err(
            lines[j],
            status,
        ) is None by {
            if h + 2 <= j < h + 2 + f.len() {
                assert(line_parse_err(lines[j], status) is None);
            }
        }
    }
}

/// Parsing a serialized document succeeds and yields its tasks in section
/// order: serialization loses nothing.
pub proof fn lemma_render_parse(ts: Seq<TaskView>)
    requires
        forall|i: int| 0 <= i < ts.len() ==> task_view_wf(#[trigger] ts[i]),
    ensures
        spec_parse_section(spec_render(ts), TaskStatus::Selected) == Ok::<Seq<TaskView>, DocError>(
            filter_status(ts, TaskStatus::Selected),
        ),
        spec_parse_section(spec_render(ts), TaskStatus::Incomplete) == Ok::<
            Seq<TaskView>,
            DocError,
        >(filter_status(ts, TaskStatus::Incomplete)),
        spec_parse_section(spec_render(ts), TaskStatus::Complete) == Ok::<Seq<TaskView>, DocError>(
            filter_status(ts, TaskStatus::Complete),
        ),
        spec_parse(spec_render(ts)) == Ok::<Seq<TaskView>, DocError>(section_order(ts)),
{
    let l = spec_render(ts);
    let rs = render_section(ts, TaskStatus::Selected);
    let ri = render_section(ts, TaskStatus::Incomplete);
    let rc = render_section(ts, TaskStatus::Complete);
    let ns = rs.len() as int;
    let ni = ri.len() as int;
    let nc = rc.len() as int;
    lemma_render_section_shape(ts, TaskStatus::Selected);
    lemma_render_section_shape(ts, TaskStatus::Incomplete);
    lemma_render_section_shape(ts, TaskStatus::Complete);
    lemma_headers_distinct();
    assert(l.len() == ns + ni + nc + 2);
    let hs = 0int;
    let hi = ns + 1;
    let hc = ns + ni + 2;
    assert forall|j: int| 0 <= j < ns implies l[j] == rs[j - hs] by {}
    assert(l[ns] == Seq::<char>::empty());
    assert forall|j: int| hi <= j < hi + ni implies l[j] == ri[j - hi] by {}
    assert(l[ns + ni + 1] == Seq::<char>::empty());
    assert forall|j: int| hc <= j < hc + nc implies l[j] == rc[j - hc] by {}
    assert forall|s2: TaskStatus| Seq::<char>::empty() != header_seq(s2) by {
        assert(header_seq(s2).len() >= 12);
    }
    // The SELECTED section: its header is the very first line.
    assert(l[hs] == header_seq(TaskStatus::Selected));
    lemma_find_line_at(l, header_seq(TaskStatus::Selected), 0, hs);
    assert(spec_section_start(l, TaskStatus::Selected) == hs);
    assert forall|j: int| hs <= j < hs + ns - 1 implies l[j] != separator_seq() by {
        assert(l[j] == rs[j]);
    }
    assert(l[hs + ns - 1] == rs[ns - 1]);
    lemma_find_line_at(l, separator_seq(), hs, hs + ns - 1);
    assert(spec_section_end(l, hs) == hs + ns - 1);
    lemma_section_box(l, ts, TaskStatus::Selected, hs);
    // The INCOMPLETE section: nothing before its header equals it.
    assert(l[hi] == header_seq(TaskStatus::Incomplete));
    assert forall|j: int| 0 <= j < hi implies l[j] != header_seq(TaskStatus::Incomplete) by {
        if j < ns {
            assert(l[j] == rs[j]);
        } else {
            assert(l[j] == Seq::<char>::empty());
        }
    }
    lemma_find_line_at(l, header_seq(TaskStatus::Incomplete), 0, hi);
    assert(spec_section_start(l, TaskStatus::Incomplete) == hi);
    assert forall|j: int| hi <= j < hi + ni - 1 implies l[j] != separator_seq() by {
        assert(l[j] == ri[j - hi]);
    }
    assert(l[hi + ni - 1] == ri[ni - 1]);
    lemma_find_line_at(l, separator_seq(), hi, hi + ni - 1);
    assert(spec_section_end(l, hi) == hi + ni - 1);
    lemma_section_box(l, ts, TaskStatus::Incomplete, hi);
    // The COMPLETE section: nothing before its header equals it.
    assert(l[hc] == header_seq(TaskStatus::Complete));
    assert forall|j: int| 0 <= j < hc implies l[j] != header_seq(TaskStatus::Complete) by {
        if j < ns {
            assert(l[j] == rs[j]);
        } else if j == ns || j == ns + ni + 1 {
            assert(l[j] == Seq::<char>::empty());
        } else {
            assert(l[j] == ri[j - hi]);
        }
    }
    lemma_find_line_at(l, header_seq(TaskStatus::Complete), 0, hc);
    assert(spec_section_start(l, TaskStatus::Complete) == hc);
    assert forall|j: int| hc <= j < hc + nc - 1 implies l[j] != separator_seq() by {
        assert(l[j] == rc[j - hc]);
    }
    assert(l[hc + nc - 1] == rc[nc - 1]);
    lemma_find_line_at(l, separator_seq(), hc, hc + nc - 1);
    assert(spec_section_end(l, hc) == hc + nc - 1);
    lemma_section_box(l, ts, TaskStatus::Complete, hc);
}

/// Every task a clean body scan yields is well formed and carries the
/// section's status.
pub proof fn lemma_body_tasks_wf(lines: Seq<Seq<char>>, lo: int, hi: int, status: TaskStatus)
    requires
        forall|j: int| lo <= j < hi ==> #[trigger] line_parse_err(lines[j], status) is None,
    ensures
        forall|k: int|
            0 <= k < body_tasks(lines, lo, hi, status).len() ==> task_view_wf(
                #[trigger] body_tasks(lines, lo, hi, status)[k],
            ) && body_tasks(lines, lo, hi, status)[k].status == status,
    decreases hi - lo,
{
    if !(lo < 0 || hi <= lo || hi > lines.len()) {
        lemma_body_tasks_wf(lines, lo, hi - 1, status);
        let bt = body_tasks(lines, lo, hi, status);
        let pre = body_tasks(lines, lo, hi - 1, status);
        assert(line_parse_err(lines[hi - 1], status) is None);
        assert forall|k: int| 0 <= k < bt.len() implies task_view_wf(#[trigger] bt[k])
            && bt[k].status == status by {
            if k < pre.len() {
                assert(bt[k] == pre[k]);
            } else {
                assert(is_task_line(lines[hi - 1]));
                assert(task_line_wf(lines[hi - 1]));
                assert(bt[k] == decoded_view(lines[hi - 1], status));
            }
        }
    }
}

/// What a document that parses holds: well-formed tasks, already in
/// section order.
pub proof fn lemma_parse_wf(lines: Seq<Seq<char>>, ts: Seq<TaskView>)
    requires
        spec_parse(lines) == Ok::<Seq<TaskView>, DocError>(ts),
    ensures
        forall|i: int| 0 <= i < ts.len() ==> task_view_wf(#[trigger] ts[i]),
        section_order(ts) == ts,
{
    let a = spec_parse_section(lines, TaskStatus::Selected)->Ok_0;
    let b = spec_parse_section(lines, TaskStatus::Incomplete)->Ok_0;
    let c = spec_parse_section(lines, TaskStatus::Complete)->Ok_0;
    assert(ts == a + b + c);
    let ss = spec_section_start(lines, TaskStatus::Selected);
    let es = spec_section_end(lines, ss);
    lemma_find_line_bounds(lines, header_seq(TaskStatus::Selected), 0);
    lemma_find_line_bounds(lines, separator_seq(), ss);
    lemma_body_err_none_iff(lines, ss + 1, es, TaskStatus::Selected);
    lemma_body_tasks_wf(lines, ss + 1, es, TaskStatus::Selected);
    let si = spec_section_start(lines, TaskStatus::Incomplete);
    let ei = spec_section_end(lines, si);
    lemma_find_line_bounds(lines, header_seq(TaskStatus::Incomplete), 0);
    lemma_find_line_bounds(lines, separator_seq(), si);
    lemma_body_err_none_iff(lines, si + 1, ei, TaskStatus::Incomplete);
    lemma_body_tasks_wf(lines, si + 1, ei, TaskStatus::Incomplete);
    let sc = spec_section_start(lines, TaskStatus::Complete);
    let ec = spec_section_end(lines, sc);
    lemma_find_line_bounds(lines, header_seq(TaskStatus::Complete), 0);
    lemma_find_line_bounds(lines, separator_seq(), sc);
    lemma_body_err_none_iff(lines, sc + 1, ec, TaskStatus::Complete);
    lemma_body_tasks_wf(lines, sc + 1, ec, TaskStatus::Complete);
    assert forall|i: int| 0 <= i < ts.len() implies task_view_wf(#[trigger] ts[i]) by {
        if i < a.len() {
            assert(ts[i] == a[i]);
        } else if i < a.len() + b.len() {
            assert(ts[i] == b[i - a.len()]);
        } else {
            assert(ts[i] == c[i - a.len() - b.len()]);
        }
    }
    lemma_filter_status_concat(a, b, TaskStatus::Selected);
    lemma_filter_status_concat(a + b, c, TaskStatus::Selected);
    lemma_filter_status_concat(a, b, TaskStatus::Incomplete);
    lemma_filter_status_concat(a + b, c, TaskStatus::Incomplete);
    lemma_filter_status_concat(a, b, TaskStatus::Complete);
    lemma_filter_status_concat(a + b, c, TaskStatus::Complete);
    lemma_filter_homogeneous(a, TaskStatus::Selected);
    lemma_filter_homogeneous(b, TaskStatus::Incomplete);
    lemma_filter_homogeneous(c, TaskStatus::Complete);
    assert(ts =~= (a + b) + c);
    assert(section_order(ts) =~= ts);
}

/// Writing out the tasks a document holds and reading them back yields
/// the very same tasks: nothing of the document's content is lost, even
/// though spacer lines are normalized.
pub proof fn lemma_save_load_round_trip(lines: Seq<Seq<char>>, ts: Seq<TaskView>)
    requires
        spec_parse(lines) == Ok::<Seq<TaskView>, DocError>(ts),
    ensures
        spec_parse(spec_render(ts)) == Ok::<Seq<TaskView>, DocError>(ts),
{
    lemma_parse_wf(lines, ts);
    lemma_render_parse(ts);
}

/// The three sections of a serialized document partition its tasks: each
/// section holds exactly the tasks of its status, and every task stands
/// in exactly one section.
pub proof fn lemma_sections_partition(ts: Seq<TaskView>)
    requires
        forall|i: int| 0 <= i < ts.len() ==> task_view_wf(#[trigger] ts[i]),
    ensures
        spec_parse_section(spec_render(ts), TaskStatus::Selected) == Ok::<Seq<TaskView>, DocError>(
            filter_status(ts, TaskStatus::Selected),
        ),
        spec_parse_section(spec_render(ts), TaskStatus::Incomplete) == Ok::<
            Seq<TaskView>,
            DocError,
        >(filter_status(ts, TaskStatus::Incomplete)),
        spec_parse_section(spec_render(ts), TaskStatus::Complete) == Ok::<Seq<TaskView>, DocError>(
            filter_status(ts, TaskStatus::Complete),
        ),
        filter_status(ts, TaskStatus::Selected).len() + filter_status(
            ts,
            TaskStatus::Incomplete,
        ).len() + filter_status(ts, TaskStatus::Complete).len() == ts.len(),
{
    lemma_render_parse(ts);
    lemma_filter_lens(ts);
}

/// A freshly added task carries an identifier no existing task carries,
/// so adding keeps identifiers unique.
pub proof fn lemma_add_preserves_unique(ts: Seq<TaskView>, text: Seq<char>, dest: TaskStatus)
    requires
        ids_unique(ts),
    ensures
        ids_unique(seq![TaskView { id: alloc_id(ts), text: text, status: dest }] + ts),
{
    lemma_max_id_ge(ts);
    let nt = TaskView { id: alloc_id(ts), text: text, status: dest };
    let nts = seq![nt] + ts;
    assert forall|i: int, j: int| 0 <= i < j < nts.len() implies nts[i].id != nts[j].id by {
        if i == 0 {
            assert(nts[j] == ts[j - 1]);
            assert(ts[j - 1].id <= max_id(ts));
        } else {
            assert(nts[i] == ts[i - 1]);
            assert(nts[j] == ts[j - 1]);
        }
    }
}

/// Moving a task neither mints nor duplicates an identifier, so moving
/// keeps identifiers unique.
pub proof fn lemma_move_preserves_unique(ts: Seq<TaskView>, i: int, dest: TaskStatus)
    requires
        ids_unique(ts),
        0 <= i < ts.len(),
    ensures
        ids_unique(
            seq![TaskView { id: ts[i].id, text: ts[i].text, status: dest }] + ts.remove(i),
        ),
{
    let moved = TaskView { id: ts[i].id, text: ts[i].text, status: dest };
    let nts = seq![moved] + ts.remove(i);
    assert forall|p: int, q: int| 0 <= p < q < nts.len() implies nts[p].id != nts[q].id by {
        let jq = if q - 1 < i {
            q - 1
        } else {
            q
        };
        assert(nts[q] == ts[jq]);
        if p == 0 {
            assert(jq != i);
        } else {
            let jp = if p - 1 < i {
                p - 1
            } else {
                p
            };
            assert(nts[p] == ts[jp]);
        }
    }
}

/// A task of the list whose status the filter admits is kept by the
/// status-set filter.
pub proof fn lemma_filter_in_contains(xs: Seq<TaskView>, sections: Seq<TaskStatus>, j: int)
    requires
        0 <= j < xs.len(),
        sections.contains(xs[j].status),
    ensures
        filter_status_in(xs, sections).contains(xs[j]),
    decreases xs.len(),
{
    let f = filter_status_in(xs, sections);
    if j == 0 {
        assert(f[0] == xs[0]);
    } else {
        assert(xs.drop_first()[j - 1] == xs[j]);
        lemma_filter_in_contains(xs.drop_first(), sections, j - 1);
        let fr = filter_status_in(xs.drop_first(), sections);
        let k = choose|k: int| 0 <= k < fr.len() && fr[k] == xs[j];
        if sections.contains(xs[0].status) {
            assert(f[k + 1] == fr[k]);
        } else {
            assert(f[k] == fr[k]);
        }
    }
}

/// Every task of a list in section order is a task of the list.
pub proof fn lemma_section_order_elems(xs: Seq<TaskView>)
    ensures
        forall|p: int|
            0 <= p < section_order(xs).len() ==> xs.contains(#[trigger] section_order(xs)[p]),
{
    lemma_filter_status_elems(xs, TaskStatus::Selected);
    lemma_filter_status_elems(xs, TaskStatus::Incomplete);
    lemma_filter_status_elems(xs, TaskStatus::Complete);
    let fs = filter_status(xs, TaskStatus::Selected);
    let fi = filter_status(xs, TaskStatus::Incomplete);
    let fc = filter_status(xs, TaskStatus::Complete);
    let so = section_order(xs);
    assert forall|p: int| 0 <= p < so.len() implies xs.contains(#[trigger] so[p]) by {
        if p < fs.len() {
            assert(so[p] == fs[p]);
        } else if p < fs.len() + fi.len() {
            assert(so[p] == fi[p - fs.len()]);
        } else {
            assert(so[p] == fc[p - fs.len() - fi.len()]);
        }
    }
}

/// A task of the list stands somewhere in the list's section order.
pub proof fn lemma_section_order_contains(xs: Seq<TaskView>, j: int)
    requires
        0 <= j < xs.len(),
    ensures
        section_order(xs).contains(xs[j]),
{
    let fs = filter_status(xs, TaskStatus::Selected);
    let fi = filter_status(xs, TaskStatus::Incomplete);
    let so = section_order(xs);
    let s = xs[j].status;
    lemma_filter_status_contains(xs, s, j);
    let f = filter_status(xs, s);
    let k = choose|k: int| 0 <= k < f.len() && f[k] == xs[j];
    match s {
        TaskStatus::Selected => {
            assert(so[k] == f[k]);
        },
        TaskStatus::Incomplete => {
            assert(so[fs.len() + k] == f[k]);
        },
        TaskStatus::Complete => {
            assert(so[fs.len() + fi.len() + k] == f[k]);
        },
    }
}

/// Adding a task and then listing with a filter that admits the
/// destination status shows the new task, under the identifier the add
/// returned; and that identifier is one more than the largest previously
/// present, or zero for a document without tasks.
pub proof fn lemma_add_then_list(
    lines: Seq<Seq<char>>,
    ts: Seq<TaskView>,
    text: Seq<char>,
    dest: TaskStatus,
    sections: Seq<TaskStatus>,
)
    requires
        spec_parse(lines) == Ok::<Seq<TaskView>, DocError>(ts),
        max_id(ts) < usize::MAX,
        sections.contains(dest),
    ensures
        spec_add(lines, text, dest) is Ok,
        ({
            let (l2, nid) = spec_add(lines, text, dest)->Ok_0;
            &&& nid == alloc_id(ts)
            &&& (ts.len() == 0 ==> nid == 0)
            &&& (ts.len() > 0 ==> nid == max_id(ts) + 1)
            &&& spec_list(l2, sections) is Ok
            &&& spec_list(l2, sections)->Ok_0.contains(
                TaskView { id: nid, text: text, status: dest },
            )
        }),
{
    let (l2, nid) = spec_add(lines, text, dest)->Ok_0;
    let nt = TaskView { id: alloc_id(ts), text: text, status: dest };
    let nts = seq![nt] + ts;
    lemma_parse_wf(lines, ts);
    assert forall|i: int| 0 <= i < nts.len() implies task_view_wf(#[trigger] nts[i]) by {
        if i > 0 {
            assert(nts[i] == ts[i - 1]);
        }
    }
    lemma_render_parse(nts);
    assert(l2 == spec_render(nts));
    let so = section_order(nts);
    assert(nts[0] == nt);
    lemma_section_order_contains(nts, 0);
    let p = choose|p: int| 0 <= p < so.len() && so[p] == nt;
    lemma_filter_in_contains(so, sections, p);
}

/// Checking a task that is already complete is rejected, and rejection
/// changes nothing: the second of two checks of one identifier fails with
/// the task already in its target state, and hands back no document.
#[verifier::rlimit(80)]
pub proof fn lemma_check_twice(lines: Seq<Seq<char>>, ts: Seq<TaskView>, id: nat)
    requires
        spec_parse(lines) == Ok::<Seq<TaskView>, DocError>(ts),
        ids_unique(ts),
        spec_move(lines, id, TaskStatus::Complete, seq![TaskStatus::Complete]) is Ok,
    ensures
        spec_move(
            spec_move(lines, id, TaskStatus::Complete, seq![TaskStatus::Complete])->Ok_0,
            id,
            TaskStatus::Complete,
            seq![TaskStatus::Complete],
        ) == Err::<Seq<Seq<char>>, DocError>(DocError::AlreadyInTargetState),
{
    let forb = seq![TaskStatus::Complete];
    let l2 = spec_move(lines, id, TaskStatus::Complete, forb)->Ok_0;
    lemma_find_index(ts, id);
    let i = find_index(ts, id);
    assert(i < ts.len());
    assert(ts[i].id == id);
    let moved = TaskView { id: ts[i].id, text: ts[i].text, status: TaskStatus::Complete };
    let nts = seq![moved] + ts.remove(i);
    assert(l2 == spec_render(nts));
    lemma_parse_wf(lines, ts);
    assert forall|p: int| 0 <= p < nts.len() implies task_view_wf(#[trigger] nts[p]) by {
        if p > 0 {
            let jp = if p - 1 < i {
                p - 1
            } else {
                p
            };
            assert(nts[p] == ts[jp]);
        }
    }
    lemma_render_parse(nts);
    let so = section_order(nts);
    assert(spec_parse(l2) == Ok::<Seq<TaskView>, DocError>(so));
    // The moved task is the only task of the new document carrying the
    // identifier, and it is complete.
    assert forall|p: int| 0 <= p < nts.len() && #[trigger] nts[p].id == id implies nts[p]
        == moved by {
        if p > 0 {
            let jp = if p - 1 < i {
                p - 1
            } else {
                p
            };
            assert(nts[p] == ts[jp]);
            if jp != i {
                assert(ts[jp].id != ts[i].id);
            }
            assert(jp == i);
            assert(false);
        }
    }
    lemma_section_order_contains(nts, 0);
    lemma_section_order_elems(nts);
    lemma_find_index(so, id);
    let k = find_index(so, id);
    assert(so.contains(moved));
    let pm = choose|pm: int| 0 <= pm < so.len() && so[pm] == moved;
    assert(so[pm].id == id);
    assert(k < so.len());
    assert(so[k].id == id);
    let j = choose|j: int| 0 <= j < nts.len() && nts[j] == so[k];
    assert(so[k] == moved);
    assert(forb[0] == TaskStatus::Complete);
    assert(forb.contains(so[k].status));
}

} // verus!
