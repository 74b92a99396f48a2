//! The pure part of loading and rewriting todo.txt: reading its lines into
//! tasks, giving ids to the tasks that have none, and writing lines back.

use vstd::prelude::*;
use crate::clock::{clock_date, local_today};
use crate::format::{format_line, format_task_on};
use crate::parser::{parse_line_on, parse_words};
use crate::roundtrip::{
    carried_task, due_no_ws, lemma_id_survives_rewrite, lemma_parsed_due_no_ws, lemma_status_survives_rewrite,
    lemma_write_read_roundtrip,
};
use crate::db_plan::{cached_rows, distinct_ids, lemma_previous_status_unique, status_change_of};
use crate::text::no_ws;
use crate::task::{task_models, DevTask, TaskModel};
use crate::text::{is_blank, split_ws};

verus! {

/// The characters of each of a sequence of strings.
pub open spec fn lines_of(v: Seq<String>) -> Seq<Seq<char>> {
    Seq::new(v.len(), |i: int| v[i]@)
}

/// The tasks of the lines of a file: each non-blank line, read with its
/// 1-based line number, in order; blank lines are skipped.
pub open spec fn load_models(lines: Seq<Seq<char>>, today: Seq<char>) -> Seq<TaskModel>
    decreases lines.len(),
{
    if lines.len() == 0 {
        seq![]
    } else {
        let prev = load_models(lines.drop_last(), today);
        if is_blank(lines.last()) {
            prev
        } else {
            prev.push(parse_words(split_ws(lines.last()), lines.len() as usize, today))
        }
    }
}

/// Reads the lines of a file into tasks; `today` is the creation date of a
/// line that has none.
pub fn tasks_from_lines_on(lines: &Vec<String>, today: &str) -> (ts: Vec<DevTask>)
    ensures
        task_models(ts@) == load_models(lines_of(lines@), today@),
{
    let mut ts: Vec<DevTask> = Vec::new();
    let mut i: usize = 0;
    while i < lines.len()
        invariant
            i <= lines@.len(),
            task_models(ts@) == load_models(lines_of(lines@).subrange(0, i as int), today@),
        decreases lines.len() - i,
    {
        let ghost all = lines_of(lines@);
        let ghost before = task_models(ts@);
        assert(all.subrange(0, i + 1).drop_last() =~= all.subrange(0, i as int));
        assert(all.subrange(0, i + 1).last() == lines@[i as int]@);
        let res = parse_line_on(lines[i].as_str(), i + 1, today);
        match res {
            Ok(t) => {
                ts.push(t);
                assert(task_models(ts@) =~= before.push(t@));
            },
            Err(_) => {},
        }
        i = i + 1;
    }
    assert(lines_of(lines@).subrange(0, lines@.len() as int) =~= lines_of(lines@));
    ts
}

/// Reads the lines of a file into tasks; a line without a creation date gets
/// today's date on the local clock.
pub fn tasks_from_lines(lines: &Vec<String>) -> (ts: Vec<DevTask>)
    ensures
        exists|today: Seq<char>| clock_date(today) && task_models(ts@) == #[trigger] load_models(lines_of(lines@), today),
{
    let today = local_today();
    let ts = tasks_from_lines_on(lines, today.as_str());
    assert(task_models(ts@) == load_models(lines_of(lines@), today@));
    ts
}

/// The greatest id among the tasks (0 for none).
pub open spec fn max_id(ts: Seq<TaskModel>) -> u32
    decreases ts.len(),
{
    if ts.len() == 0 {
        0
    } else {
        let m = max_id(ts.drop_last());
        if ts.last().id > m {
            ts.last().id
        } else {
            m
        }
    }
}

/// How many tasks have no id (id 0).
pub open spec fn count_missing(ts: Seq<TaskModel>) -> nat
    decreases ts.len(),
{
    if ts.len() == 0 {
        0
    } else {
        count_missing(ts.drop_last()) + if ts.last().id == 0 {
            1nat
        } else {
            0nat
        }
    }
}

/// Whether giving ids stays within `u32`.
pub open spec fn ids_fit(ts: Seq<TaskModel>) -> bool {
    max_id(ts) + count_missing(ts) <= u32::MAX
}

/// The id task `i` has after ids are given: its own, or for the `k`-th task
/// without one (from 0), the greatest id plus `k + 1`.
pub open spec fn assigned_id(ts: Seq<TaskModel>, i: int) -> int {
    if ts[i].id == 0 {
        max_id(ts) + 1 + count_missing(ts.subrange(0, i))
    } else {
        ts[i].id as int
    }
}

/// The tasks after ids are given. When some task had none the file is
/// rewritten, so every task's line number becomes its position (from 1).
pub open spec fn assign_ids(ts: Seq<TaskModel>) -> Seq<TaskModel> {
    Seq::new(
        ts.len(),
        |i: int|
            TaskModel {
                id: assigned_id(ts, i) as u32,
                line_number: if count_missing(ts) > 0 {
                    (i + 1) as usize
                } else {
                    ts[i].line_number
                },
                ..ts[i]
            },
    )
}

/// Every id is at most the greatest id.
pub proof fn lemma_max_id(ts: Seq<TaskModel>)
    ensures
        forall|i: int| 0 <= i < ts.len() ==> #[trigger] ts[i].id <= max_id(ts),
    decreases ts.len(),
{
    if ts.len() > 0 {
        lemma_max_id(ts.drop_last());
        assert forall|i: int| 0 <= i < ts.len() implies #[trigger] ts[i].id <= max_id(ts) by {
            if i < ts.len() - 1 {
                assert(ts[i] == ts.drop_last()[i]);
            }
        }
    }
}

/// Counting on a longer prefix counts no fewer.
proof fn lemma_count_missing_prefix(ts: Seq<TaskModel>, i: int, j: int)
    requires
        0 <= i <= j <= ts.len(),
    ensures
        count_missing(ts.subrange(0, i)) <= count_missing(ts.subrange(0, j)),
        i < j && ts[i].id == 0 ==> count_missing(ts.subrange(0, i)) < count_missing(
            ts.subrange(0, j),
        ),
    decreases j - i,
{
    if i < j {
        lemma_count_missing_prefix(ts, i, j - 1);
        assert(ts.subrange(0, j).drop_last() =~= ts.subrange(0, j - 1));
        assert(ts.subrange(0, j).last() == ts[j - 1]);
        if i < j - 1 && ts[i].id == 0 {
            lemma_count_missing_prefix(ts, i, i + 1);
            lemma_count_missing_prefix(ts, i + 1, j - 1);
        }
        if i == j - 1 {
            assert(ts.subrange(0, j).drop_last() =~= ts.subrange(0, i));
        }
    }
}

/// Whether giving ids to the tasks without one stays within `u32`, as
/// `assign_missing_ids` requires.
pub fn ids_fit_for(tasks: &Vec<DevTask>) -> (b: bool)
    ensures
        b == ids_fit(task_models(tasks@)),
{
    let ghost ts = task_models(tasks@);
    let mut max: u32 = 0;
    let mut missing: u64 = 0;
    let mut i: usize = 0;
    while i < tasks.len()
        invariant
            i <= tasks@.len(),
            ts == task_models(tasks@),
            max == max_id(ts.subrange(0, i as int)),
            missing == count_missing(ts.subrange(0, i as int)),
            missing <= i,
        decreases tasks.len() - i,
    {
        assert(ts.subrange(0, i + 1).drop_last() =~= ts.subrange(0, i as int));
        assert(ts.subrange(0, i + 1).last() == ts[i as int]);
        if tasks[i].id > max {
            max = tasks[i].id;
        }
        if tasks[i].id == 0 {
            missing = missing + 1;
        }
        i = i + 1;
    }
    assert(ts.subrange(0, tasks@.len() as int) =~= ts);
    missing <= 0xffff_ffffu64 - (max as u64)
}

/// Gives every task without an id (id 0) a fresh one, counting up from the
/// greatest id, in file order, and returns whether any task had none (then
/// the file must be rewritten, and line numbers follow the rewritten file).
pub fn assign_missing_ids(tasks: &mut Vec<DevTask>) -> (rewrite: bool)
    requires
        ids_fit(task_models(old(tasks)@)),
    ensures
        rewrite == (count_missing(task_models(old(tasks)@)) > 0),
        task_models(final(tasks)@) == assign_ids(task_models(old(tasks)@)),
{
    let ghost ts = task_models(tasks@);
    let mut max: u32 = 0;
    let mut missing: usize = 0;
    let mut i: usize = 0;
    while i < tasks.len()
        invariant
            i <= tasks@.len(),
            ts == task_models(tasks@),
            max == max_id(ts.subrange(0, i as int)),
            missing == count_missing(ts.subrange(0, i as int)),
            missing <= i,
        decreases tasks.len() - i,
    {
        assert(ts.subrange(0, i + 1).drop_last() =~= ts.subrange(0, i as int));
        assert(ts.subrange(0, i + 1).last() == ts[i as int]);
        if tasks[i].id > max {
            max = tasks[i].id;
        }
        if tasks[i].id == 0 {
            missing = missing + 1;
        }
        i = i + 1;
    }
    assert(ts.subrange(0, tasks@.len() as int) =~= ts);
    let rewrite = missing > 0;
    let mut next: u32 = max;
    let mut k: usize = 0;
    assert(ts.subrange(0, 0) =~= Seq::<TaskModel>::empty());
    while k < tasks.len()
        invariant
            k <= tasks@.len(),
            tasks@.len() == ts.len(),
            max == max_id(ts),
            rewrite == (count_missing(ts) > 0),
            ids_fit(ts),
            next == max + count_missing(ts.subrange(0, k as int)),
            count_missing(ts.subrange(0, k as int)) <= count_missing(ts),
            forall|j: int| 0 <= j < k ==> #[trigger] task_models(tasks@)[j] == assign_ids(ts)[j],
            forall|j: int| k <= j < tasks@.len() ==> #[trigger] task_models(tasks@)[j] == ts[j],
        decreases tasks.len() - k,
    {
        proof {
            lemma_count_missing_prefix(ts, k as int, ts.len() as int);
            assert(ts.subrange(0, k + 1).drop_last() =~= ts.subrange(0, k as int));
            assert(ts.subrange(0, k + 1).last() == ts[k as int]);
            assert(ts.subrange(0, ts.len() as int) =~= ts);
        }
        assert(task_models(tasks@)[k as int] == ts[k as int]);
        let ghost before = tasks@;
        if tasks[k].id == 0 {
            assert(ts[k as int].id == 0);
            next = next + 1;
            tasks[k].id = next;
        }
        if rewrite {
            tasks[k].line_number = k + 1;
        }
        assert forall|j: int| 0 <= j < tasks@.len() && j != k implies tasks@[j] == before[j] by {}
        assert(task_models(tasks@)[k as int] == assign_ids(ts)[k as int]);
        assert forall|j: int| 0 <= j < tasks@.len() && j != k implies #[trigger] task_models(tasks@)[j]
            == task_models(before)[j] by {
            assert(tasks@[j] == before[j]);
        }
        k = k + 1;
    }
    rewrite
}

/// Ids given to tasks without one are fresh: every id is non-zero afterwards,
/// a given id differs from every id that was there and from every other given
/// id, so ids that were distinct stay distinct.
pub proof fn lemma_assigned_ids_fresh(ts: Seq<TaskModel>)
    requires
        ids_fit(ts),
    ensures
        forall|i: int| 0 <= i < ts.len() ==> #[trigger] assign_ids(ts)[i].id != 0,
        forall|i: int| 0 <= i < ts.len() && ts[i].id != 0 ==> #[trigger] assign_ids(ts)[i].id == ts[i].id,
        forall|i: int, j: int|
            0 <= i < ts.len() && 0 <= j < ts.len() && i != j && ts[i].id == 0
                ==> #[trigger] assign_ids(ts)[i].id != #[trigger] assign_ids(ts)[j].id,
        (forall|i: int, j: int|
            0 <= i < ts.len() && 0 <= j < ts.len() && i != j && ts[i].id != 0
                ==> #[trigger] ts[i].id != #[trigger] ts[j].id) ==> forall|i: int, j: int|
            0 <= i < ts.len() && 0 <= j < ts.len() && i != j
                ==> #[trigger] assign_ids(ts)[i].id != #[trigger] assign_ids(ts)[j].id,
{
    lemma_max_id(ts);
    assert forall|i: int| 0 <= i < ts.len() && ts[i].id == 0 implies max_id(ts) + 1 + count_missing(
        ts.subrange(0, i),
    ) <= u32::MAX by {
        lemma_count_missing_prefix(ts, i, ts.len() as int);
        lemma_count_missing_prefix(ts, i, i + 1);
        assert(ts.subrange(0, ts.len() as int) =~= ts);
        lemma_count_missing_prefix(ts, i + 1, ts.len() as int);
    }
    assert forall|i: int, j: int|
        0 <= i < ts.len() && 0 <= j < ts.len() && i != j && ts[i].id == 0 implies #[trigger] assign_ids(
        ts,
    )[i].id != #[trigger] assign_ids(ts)[j].id by {
        if ts[j].id == 0 {
            if i < j {
                lemma_count_missing_prefix(ts, i, j);
            } else {
                lemma_count_missing_prefix(ts, j, i);
            }
        }
    }
}

/// The lines written for the tasks, one per task, in order.
pub open spec fn render_models(ts: Seq<TaskModel>, today: Seq<char>) -> Seq<Seq<char>> {
    Seq::new(ts.len(), |i: int| format_line(ts[i], today))
}

/// Writes each task as one line; a completed task without a completion date
/// gets `today`.
pub fn render_lines_on(tasks: &Vec<DevTask>, today: &str) -> (lines: Vec<String>)
    ensures
        lines_of(lines@) == render_models(task_models(tasks@), today@),
{
    let mut lines: Vec<String> = Vec::new();
    let mut i: usize = 0;
    while i < tasks.len()
        invariant
            i <= tasks@.len(),
            lines_of(lines@) == Seq::new(i as nat, |j: int| format_line(tasks@[j]@, today@)),
        decreases tasks.len() - i,
    {
        let ghost before = lines_of(lines@);
        let l = format_task_on(&tasks[i], today);
        let ghost lv = l@;
        lines.push(l);
        assert(lines_of(lines@) =~= before.push(lv));
        i = i + 1;
        assert(before.push(lv) =~= Seq::new(i as nat, |j: int| format_line(tasks@[j]@, today@)));
    }
    assert(lines_of(lines@) =~= render_models(task_models(tasks@), today@));
    lines
}

/// Writes each task as one line, as the file is rewritten; a completed task
/// without a completion date gets today's date on the local clock.
pub fn render_lines(tasks: &Vec<DevTask>) -> (lines: Vec<String>)
    ensures
        exists|today: Seq<char>| clock_date(today) && lines_of(lines@) == #[trigger] render_models(task_models(tasks@), today),
{
    let today = local_today();
    let lines = render_lines_on(tasks, today.as_str());
    assert(lines_of(lines@) == render_models(task_models(tasks@), today@));
    lines
}

/// Ids survive a rewrite of the whole file: loading the lines written for
/// any tasks gives one task per line, each with the id it had.
pub proof fn lemma_reload_keeps_ids(ts: Seq<TaskModel>, today: Seq<char>, today2: Seq<char>)
    ensures
        load_models(render_models(ts, today), today2).len() == ts.len(),
        forall|i: int|
            0 <= i < ts.len() ==> #[trigger] load_models(render_models(ts, today), today2)[i].id
                == ts[i].id,
    decreases ts.len(),
{
    if ts.len() > 0 {
        lemma_reload_keeps_ids(ts.drop_last(), today, today2);
        let lines = render_models(ts, today);
        assert(lines.drop_last() =~= render_models(ts.drop_last(), today));
        assert(lines.last() == format_line(ts.last(), today));
        lemma_id_survives_rewrite(ts.last(), today, lines.len() as usize, today2);
        let prev = load_models(lines.drop_last(), today2);
        assert forall|i: int| 0 <= i < ts.len() implies #[trigger] load_models(lines, today2)[i].id
            == ts[i].id by {
            if i < ts.len() - 1 {
                assert(load_models(lines, today2)[i] == prev[i]);
                assert(ts.drop_last()[i] == ts[i]);
            }
        }
    }
}

/// Reloading a rewritten file gives the tasks back: for tasks whose fields
/// the line format carries, numbered from 1 in file order, loading the lines
/// written for them, with any date for today, gives them unchanged.
pub proof fn lemma_reload_rewritten(ts: Seq<TaskModel>, today: Seq<char>, today2: Seq<char>)
    requires
        forall|i: int| 0 <= i < ts.len() ==> #[trigger] carried_task(ts[i]),
        forall|i: int| 0 <= i < ts.len() ==> #[trigger] ts[i].line_number == i + 1,
    ensures
        load_models(render_models(ts, today), today2) == ts,
    decreases ts.len(),
{
    if ts.len() > 0 {
        let lines = render_models(ts, today);
        let last = ts[ts.len() - 1];
        assert forall|i: int| 0 <= i < ts.drop_last().len() implies #[trigger] carried_task(
            ts.drop_last()[i],
        ) && ts.drop_last()[i].line_number == i + 1 by {
            assert(ts.drop_last()[i] == ts[i]);
            assert(carried_task(ts[i]));
            assert(ts[i].line_number == i + 1);
        }
        lemma_reload_rewritten(ts.drop_last(), today, today2);
        assert(lines.drop_last() =~= render_models(ts.drop_last(), today));
        assert(lines.last() == format_line(last, today));
        assert(carried_task(last));
        assert(last.line_number == ts.len());
        lemma_write_read_roundtrip(last, today, today2);
        assert(load_models(lines, today2) =~= ts);
    }
}

/// The file rewritten to persist fresh ids reads back as the tasks with
/// those ids: when some task had no id and every task's fields are carried
/// by the line format, loading the rewritten lines gives the tasks after ids
/// were given.
pub proof fn lemma_reload_after_assign(ts: Seq<TaskModel>, today: Seq<char>, today2: Seq<char>)
    requires
        ts.len() <= usize::MAX,
        ids_fit(ts),
        count_missing(ts) > 0,
        forall|i: int| 0 <= i < ts.len() ==> #[trigger] carried_task(ts[i]),
    ensures
        load_models(render_models(assign_ids(ts), today), today2) == assign_ids(ts),
{
    let a = assign_ids(ts);
    assert forall|i: int| 0 <= i < a.len() implies #[trigger] carried_task(a[i]) by {
        assert(carried_task(ts[i]));
    }
    assert forall|i: int| 0 <= i < a.len() implies #[trigger] a[i].line_number == i + 1 by {
        assert(a[i].line_number == (i + 1) as usize);
    }
    lemma_reload_rewritten(a, today, today2);
}

/// The file after a load: rewritten with the tasks when some task had no
/// id (`today_w` standing for the date the writing uses), untouched otherwise.
pub open spec fn file_after_load(lines: Seq<Seq<char>>, today: Seq<char>, today_w: Seq<char>) -> Seq<
    Seq<char>,
> {
    let ts0 = load_models(lines, today);
    if count_missing(ts0) > 0 {
        render_models(assign_ids(ts0), today_w)
    } else {
        lines
    }
}

/// The ids and columns that loading gives do not depend on the date for today.
pub proof fn lemma_load_ids_ignore_today(lines: Seq<Seq<char>>, today: Seq<char>, today2: Seq<char>)
    ensures
        load_models(lines, today).len() == load_models(lines, today2).len(),
        forall|i: int|
            0 <= i < load_models(lines, today).len() ==> #[trigger] load_models(lines, today)[i].id
                == load_models(lines, today2)[i].id && load_models(lines, today)[i].status
                == load_models(lines, today2)[i].status,
    decreases lines.len(),
{
    if lines.len() > 0 {
        lemma_load_ids_ignore_today(lines.drop_last(), today, today2);
        let a = load_models(lines, today);
        let b = load_models(lines, today2);
        let pa = load_models(lines.drop_last(), today);
        let pb = load_models(lines.drop_last(), today2);
        assert forall|i: int| 0 <= i < a.len() implies #[trigger] a[i].id == b[i].id && a[i].status
            == b[i].status by {
            if i < pa.len() {
                assert(a[i] == pa[i]);
                assert(b[i] == pb[i]);
                assert(pa[i].id == pb[i].id);
                assert(pa[i].status == pb[i].status);
            } else {
                let ws = split_ws(lines.last());
                assert(a[i] == parse_words(ws, lines.len() as usize, today));
                assert(b[i] == parse_words(ws, lines.len() as usize, today2));
            }
        }
    }
}

/// No task lacks an id exactly when every id is non-zero.
pub proof fn lemma_count_missing_zero(ts: Seq<TaskModel>)
    ensures
        count_missing(ts) == 0 <==> forall|i: int| 0 <= i < ts.len() ==> #[trigger] ts[i].id != 0,
    decreases ts.len(),
{
    if ts.len() > 0 {
        lemma_count_missing_zero(ts.drop_last());
        if count_missing(ts) == 0 {
            assert forall|i: int| 0 <= i < ts.len() implies #[trigger] ts[i].id != 0 by {
                if i < ts.len() - 1 {
                    assert(ts[i] == ts.drop_last()[i]);
                }
            }
        } else if count_missing(ts.drop_last()) > 0 {
            let j = choose|j: int| 0 <= j < ts.drop_last().len() && #[trigger] ts.drop_last()[j].id == 0;
            assert(ts[j] == ts.drop_last()[j]);
        } else {
            assert(ts[ts.len() - 1].id == 0);
        }
    }
}

/// Ids are stable once given: loading a file, rewriting it if some task had
/// no id, then loading it again finds no task without an id (so nothing is
/// rewritten), the same number of tasks, and each with the id the first load
/// gave it, in the same order.
pub proof fn lemma_second_load_stable(
    lines: Seq<Seq<char>>,
    today: Seq<char>,
    today_w: Seq<char>,
    today2: Seq<char>,
)
    requires
        ids_fit(load_models(lines, today)),
    ensures
        ({
            let ts1 = assign_ids(load_models(lines, today));
            let ts2 = load_models(file_after_load(lines, today, today_w), today2);
            &&& count_missing(ts2) == 0
            &&& ts2.len() == ts1.len()
            &&& forall|i: int| 0 <= i < ts1.len() ==> #[trigger] ts2[i].id == ts1[i].id
        }),
{
    let ts0 = load_models(lines, today);
    let ts1 = assign_ids(ts0);
    let ts2 = load_models(file_after_load(lines, today, today_w), today2);
    lemma_assigned_ids_fresh(ts0);
    if count_missing(ts0) > 0 {
        lemma_reload_keeps_ids(ts1, today_w, today2);
    } else {
        lemma_load_ids_ignore_today(lines, today, today2);
        lemma_count_missing_zero(ts0);
        assert forall|i: int| 0 <= i < ts1.len() implies #[trigger] ts2[i].id == ts1[i].id by {
            assert(ts0[i].id != 0);
            assert(ts1[i].id == ts0[i].id);
        }
    }
    assert forall|i: int| 0 <= i < ts2.len() implies #[trigger] ts2[i].id != 0 by {
        assert(ts2[i].id == ts1[i].id);
        assert(ts1[i].id == assign_ids(ts0)[i].id);
    }
    lemma_count_missing_zero(ts2);
}

/// Every task loaded from lines has a due date without whitespace, if any.
pub proof fn lemma_loaded_due_no_ws(lines: Seq<Seq<char>>, today: Seq<char>)
    ensures
        forall|i: int|
            0 <= i < load_models(lines, today).len() ==> due_no_ws(#[trigger] load_models(lines, today)[i]),
    decreases lines.len(),
{
    if lines.len() > 0 {
        lemma_loaded_due_no_ws(lines.drop_last(), today);
        lemma_parsed_due_no_ws(lines.last(), lines.len() as usize, today);
        let a = load_models(lines, today);
        let p = load_models(lines.drop_last(), today);
        assert forall|i: int| 0 <= i < a.len() implies due_no_ws(#[trigger] a[i]) by {
            if i < p.len() {
                assert(a[i] == p[i]);
            }
        }
    }
}

/// Columns survive a rewrite of the whole file: loading the lines written for
/// tasks whose due dates have no whitespace gives each task's column back.
pub proof fn lemma_reload_keeps_status(ts: Seq<TaskModel>, today: Seq<char>, today2: Seq<char>)
    requires
        forall|i: int| 0 <= i < ts.len() ==> due_no_ws(#[trigger] ts[i]),
    ensures
        load_models(render_models(ts, today), today2).len() == ts.len(),
        forall|i: int|
            0 <= i < ts.len() ==> #[trigger] load_models(render_models(ts, today), today2)[i].status
                == ts[i].status,
    decreases ts.len(),
{
    if ts.len() > 0 {
        assert forall|i: int| 0 <= i < ts.drop_last().len() implies due_no_ws(#[trigger] ts.drop_last()[i]) by {
            assert(ts.drop_last()[i] == ts[i]);
        }
        lemma_reload_keeps_status(ts.drop_last(), today, today2);
        lemma_reload_keeps_ids(ts, today, today2);
        let lines = render_models(ts, today);
        assert(lines.drop_last() =~= render_models(ts.drop_last(), today));
        assert(lines.last() == format_line(ts.last(), today));
        assert(ts.last() == ts[ts.len() - 1]);
        lemma_status_survives_rewrite(ts.last(), today, lines.len() as usize, today2);
        let prev = load_models(lines.drop_last(), today2);
        assert forall|i: int| 0 <= i < ts.len() implies #[trigger] load_models(lines, today2)[i].status
            == ts[i].status by {
            if i < ts.len() - 1 {
                assert(load_models(lines, today2)[i] == prev[i]);
                assert(ts.drop_last()[i] == ts[i]);
            }
        }
    }
}

/// A second load after the first finds each task in the column the first
/// load found it in.
pub proof fn lemma_second_load_keeps_status(
    lines: Seq<Seq<char>>,
    today: Seq<char>,
    today_w: Seq<char>,
    today2: Seq<char>,
)
    requires
        ids_fit(load_models(lines, today)),
    ensures
        ({
            let ts1 = assign_ids(load_models(lines, today));
            let ts2 = load_models(file_after_load(lines, today, today_w), today2);
            &&& ts2.len() == ts1.len()
            &&& forall|i: int| 0 <= i < ts1.len() ==> #[trigger] ts2[i].status == ts1[i].status
        }),
{
    let ts0 = load_models(lines, today);
    let ts1 = assign_ids(ts0);
    let ts2 = load_models(file_after_load(lines, today, today_w), today2);
    lemma_loaded_due_no_ws(lines, today);
    if count_missing(ts0) > 0 {
        assert forall|i: int| 0 <= i < ts1.len() implies due_no_ws(#[trigger] ts1[i]) by {
            assert(ts1[i].due_date == ts0[i].due_date);
        }
        lemma_reload_keeps_status(ts1, today_w, today2);
    } else {
        lemma_load_ids_ignore_today(lines, today, today2);
        assert forall|i: int| 0 <= i < ts1.len() implies #[trigger] ts2[i].status == ts1[i].status by {
            assert(ts1[i].status == ts0[i].status);
        }
    }
}

/// Loading again logs no history: after a load (rewriting the file if some
/// task had no id) and a sync of its tasks, none sharing an id, a second load
/// finds no task whose status the cache does not already hold.
pub proof fn lemma_second_load_logs_nothing(
    lines: Seq<Seq<char>>,
    today: Seq<char>,
    today_w: Seq<char>,
    today2: Seq<char>,
)
    requires
        ids_fit(load_models(lines, today)),
        distinct_ids(assign_ids(load_models(lines, today))),
    ensures
        ({
            let ts1 = assign_ids(load_models(lines, today));
            let ts2 = load_models(file_after_load(lines, today, today_w), today2);
            forall|i: int| 0 <= i < ts2.len() ==> #[trigger] status_change_of(cached_rows(ts1), ts2[i]) is None
        }),
{
    let ts1 = assign_ids(load_models(lines, today));
    let ts2 = load_models(file_after_load(lines, today, today_w), today2);
    lemma_second_load_stable(lines, today, today_w, today2);
    lemma_second_load_keeps_status(lines, today, today_w, today2);
    let rows = cached_rows(ts1);
    assert forall|i: int| 0 <= i < ts2.len() implies #[trigger] status_change_of(cached_rows(ts1), ts2[i])
        is None by {
        assert forall|j: int| 0 <= j < rows.len() && j != i implies #[trigger] rows[j].0 != rows[i].0 by {
            assert(ts1[j].id != ts1[i].id);
        }
        lemma_previous_status_unique(rows, i);
        assert(ts2[i].id == ts1[i].id);
        assert(ts2[i].status == ts1[i].status);
    }
}

/// Each written line reads back as its task: for tasks whose fields the
/// format carries, numbered from 1 in file order, there is one line per task,
/// and line `i + 1`, read with any date for today, gives task `i`.
pub proof fn lemma_rendered_lines_read_back(ts: Seq<TaskModel>, today: Seq<char>, today2: Seq<char>)
    requires
        forall|i: int| 0 <= i < ts.len() ==> #[trigger] carried_task(ts[i]),
        forall|i: int| 0 <= i < ts.len() ==> #[trigger] ts[i].line_number == i + 1,
    ensures
        render_models(ts, today).len() == ts.len(),
        forall|i: int|
            0 <= i < ts.len() ==> !is_blank(#[trigger] render_models(ts, today)[i]) && parse_words(
                split_ws(render_models(ts, today)[i]),
                (i + 1) as usize,
                today2,
            ) == ts[i],
{
    assert forall|i: int| 0 <= i < ts.len() implies !is_blank(#[trigger] render_models(ts, today)[i])
        && parse_words(split_ws(render_models(ts, today)[i]), (i + 1) as usize, today2) == ts[i] by {
        assert(carried_task(ts[i]));
        assert(ts[i].line_number == i + 1);
        assert(render_models(ts, today)[i] == format_line(ts[i], today));
        lemma_write_read_roundtrip(ts[i], today, today2);
    }
}

} // verus!
