//! What the SQLite cache must be told after a load: which status changes to
//! log, and which rows to delete.

use vstd::prelude::*;
use crate::status::status_name;
use crate::task::{DevTask, TaskModel};
use crate::text::{
    decimal, has_prefix, join_chars, join_words, lemma_decimal, lemma_parse_decimal, lemma_split_on_join,
    parse_u32, push_decimal, push_str, split_on, str_equals, string_from_chars, words_of,
};

verus! {

/// A row for the state history: a task moved from one column (none for a
/// task new to the cache) to another.
pub struct StatusChange {
    pub task_id: u32,
    pub from_status: Option<String>,
    pub to_status: String,
}

/// The model of a history row, strings taken as their characters.
pub struct ChangeModel {
    pub task_id: u32,
    pub from_status: Option<Seq<char>>,
    pub to_status: Seq<char>,
}

impl View for StatusChange {
    type V = ChangeModel;

    open spec fn view(&self) -> ChangeModel {
        ChangeModel {
            task_id: self.task_id,
            from_status: match self.from_status {
                Some(s) => Some(s@),
                None => None,
            },
            to_status: self.to_status@,
        }
    }
}

/// The `(id, status)` rows read from the cache, strings taken as characters.
pub open spec fn rows_of(v: Seq<(u32, String)>) -> Seq<(u32, Seq<char>)> {
    Seq::new(v.len(), |i: int| (v[i].0, v[i].1@))
}

/// The status the cache holds for an id: that of the last row with the id,
/// as a map built from the rows keeps it.
pub open spec fn previous_status(rows: Seq<(u32, Seq<char>)>, id: u32) -> Option<Seq<char>>
    decreases rows.len(),
{
    if rows.len() == 0 {
        None
    } else if rows.last().0 == id {
        Some(rows.last().1)
    } else {
        previous_status(rows.drop_last(), id)
    }
}

/// The history row a synced task calls for: none when its status is the one
/// the cache holds; a move from the held status when it differs; a move from
/// nothing when the cache does not hold the task.
pub open spec fn status_change_of(rows: Seq<(u32, Seq<char>)>, t: TaskModel) -> Option<ChangeModel> {
    let to = status_name(t.status);
    match previous_status(rows, t.id) {
        Some(prev) => if prev == to {
            None
        } else {
            Some(ChangeModel { task_id: t.id, from_status: Some(prev), to_status: to })
        },
        None => Some(ChangeModel { task_id: t.id, from_status: None, to_status: to }),
    }
}

/// The view of an optional history row.
pub open spec fn opt_change(o: Option<StatusChange>) -> Option<ChangeModel> {
    match o {
        Some(c) => Some(c@),
        None => None,
    }
}

/// The history row to log for a task, given the `(id, status)` rows the cache
/// held before the sync.
pub fn status_change(existing: &Vec<(u32, String)>, task: &DevTask) -> (r: Option<StatusChange>)
    ensures
        opt_change(r) == status_change_of(rows_of(existing@), task@),
{
    let ghost rows = rows_of(existing@);
    let to = task.status.to_str();
    let mut i: usize = existing.len();
    assert(rows.subrange(0, i as int) =~= rows);
    while i > 0
        invariant
            i <= existing@.len(),
            rows == rows_of(existing@),
            to@ == status_name(task.status),
            previous_status(rows.subrange(0, i as int), task.id) == previous_status(rows, task.id),
        decreases i,
    {
        let ghost sub = rows.subrange(0, i as int);
        assert(sub.drop_last() =~= rows.subrange(0, i - 1));
        assert(sub.last() == rows[i - 1]);
        if existing[i - 1].0 == task.id {
            let prev = &existing[i - 1].1;
            assert(rows[i - 1] == (existing@[i - 1].0, existing@[i - 1].1@));
            assert(prev@ == rows[i - 1].1);
            assert(previous_status(rows, task.id) == Some(prev@));
            assert(to@ == status_name(task.status));
            if str_equals(prev.as_str(), to) {
                return None;
            }
            let r = StatusChange {
                task_id: task.id,
                from_status: Some(prev.clone()),
                to_status: to.to_owned(),
            };
            return Some(r);
        }
        i = i - 1;
    }
    assert(rows.subrange(0, 0) =~= Seq::<(u32, Seq<char>)>::empty());
    Some(StatusChange { task_id: task.id, from_status: None, to_status: to.to_owned() })
}

/// The ids of the tasks, in order.
pub open spec fn task_ids(ts: Seq<DevTask>) -> Seq<u32> {
    Seq::new(ts.len(), |i: int| ts[i].id)
}

/// The statement that deletes the cached tasks no longer in the file: every
/// row when there is no task, else the rows whose id is none of the tasks'.
pub open spec fn delete_stale_statement(ids: Seq<u32>) -> Seq<char> {
    if ids.len() == 0 {
        "DELETE FROM tasks"@
    } else {
        "DELETE FROM tasks WHERE id NOT IN ("@ + join_words(
            Seq::new(ids.len(), |i: int| decimal(ids[i] as nat)),
            ',',
        ) + ")"@
    }
}

/// The list of ids a `DELETE ... NOT IN (...)` statement keeps: what stands
/// between the opening `NOT IN (` and the closing `)`.
pub open spec fn kept_list(stmt: Seq<char>) -> Seq<char> {
    stmt.subrange("DELETE FROM tasks WHERE id NOT IN ("@.len() as int, stmt.len() - 1)
}

/// The delete statement never deletes the row of a task in the file: it
/// deletes every row only when there is no task; otherwise it deletes the
/// rows whose id is not in its list, and that list, read back field by field,
/// is the tasks' ids in order, each in plain decimal.
pub proof fn lemma_delete_keeps_file_tasks(ids: Seq<u32>)
    ensures
        delete_stale_statement(ids) == "DELETE FROM tasks"@ <==> ids.len() == 0,
        ids.len() > 0 ==> has_prefix(delete_stale_statement(ids), "DELETE FROM tasks WHERE id NOT IN ("@),
        ids.len() > 0 ==> delete_stale_statement(ids).last() == ')',
        ids.len() > 0 ==> split_on(kept_list(delete_stale_statement(ids)), ',').len() == ids.len(),
        ids.len() > 0 ==> forall|i: int|
            0 <= i < ids.len() ==> parse_u32(
                #[trigger] split_on(kept_list(delete_stale_statement(ids)), ',')[i],
            ) == Some(ids[i]) && split_on(kept_list(delete_stale_statement(ids)), ',')[i] == decimal(
                ids[i] as nat,
            ),
{
    reveal_strlit("DELETE FROM tasks");
    reveal_strlit("DELETE FROM tasks WHERE id NOT IN (");
    reveal_strlit(")");
    if ids.len() > 0 {
        let pre = "DELETE FROM tasks WHERE id NOT IN ("@;
        let ws = Seq::new(ids.len(), |i: int| decimal(ids[i] as nat));
        let list = join_words(ws, ',');
        let stmt = delete_stale_statement(ids);
        assert(stmt == pre + list + ")"@);
        assert(stmt.subrange(0, pre.len() as int) =~= pre);
        assert(kept_list(stmt) =~= list);
        assert forall|i: int, j: int| 0 <= i < ws.len() && 0 <= j < ws[i].len() implies #[trigger] ws[i][j]
            != ',' by {
            lemma_decimal(ids[i] as nat);
            assert(crate::text::is_digit(decimal(ids[i] as nat)[j]));
        }
        lemma_split_on_join(ws, ',');
        assert forall|i: int| 0 <= i < ids.len() implies parse_u32(
            #[trigger] split_on(kept_list(stmt), ',')[i],
        ) == Some(ids[i]) by {
            lemma_parse_decimal(ids[i]);
        }
        assert(stmt.len() != "DELETE FROM tasks"@.len());
    }
}

/// Builds the statement that deletes the cached tasks no longer in the file.
pub fn delete_stale_sql(tasks: &Vec<DevTask>) -> (r: String)
    ensures
        r@ == delete_stale_statement(task_ids(tasks@)),
{
    if tasks.len() == 0 {
        return "DELETE FROM tasks".to_owned();
    }
    let mut ids: Vec<Vec<char>> = Vec::new();
    let mut i: usize = 0;
    while i < tasks.len()
        invariant
            i <= tasks@.len(),
            words_of(ids@) == Seq::new(i as nat, |j: int| decimal(tasks@[j].id as nat)),
        decreases tasks.len() - i,
    {
        let ghost before = words_of(ids@);
        let mut d: Vec<char> = Vec::new();
        push_decimal(&mut d, tasks[i].id);
        let ghost dv = d@;
        assert(dv =~= decimal(tasks@[i as int].id as nat));
        ids.push(d);
        assert(words_of(ids@) =~= before.push(dv));
        i = i + 1;
        assert(before.push(dv) =~= Seq::new(i as nat, |j: int| decimal(tasks@[j].id as nat)));
    }
    let mut r: Vec<char> = Vec::new();
    push_str(&mut r, "DELETE FROM tasks WHERE id NOT IN (");
    let list = join_chars(&ids, ',');
    let mut k: usize = 0;
    let ghost start = r@;
    while k < list.len()
        invariant
            k <= list@.len(),
            r@ == start + list@.subrange(0, k as int),
        decreases list.len() - k,
    {
        r.push(list[k]);
        k = k + 1;
        assert(r@ =~= start + list@.subrange(0, k as int));
    }
    assert(list@.subrange(0, list@.len() as int) =~= list@);
    push_str(&mut r, ")");
    let ghost ids_spec = Seq::new(task_ids(tasks@).len(), |j: int| decimal(task_ids(tasks@)[j] as nat));
    assert(words_of(ids@) =~= ids_spec);
    string_from_chars(r)
}

/// The `(id, status)` rows the cache holds after syncing the tasks: one per
/// task, in order; for a repeated id the later task's status is the one that
/// counts, as with the upserts.
pub open spec fn cached_rows(ts: Seq<TaskModel>) -> Seq<(u32, Seq<char>)> {
    Seq::new(ts.len(), |i: int| (ts[i].id, status_name(ts[i].status)))
}

/// No two tasks share an id.
pub open spec fn distinct_ids(ts: Seq<TaskModel>) -> bool {
    forall|i: int, j: int|
        0 <= i < ts.len() && 0 <= j < ts.len() && i != j ==> #[trigger] ts[i].id != #[trigger] ts[j].id
}

/// The status held for an id that only one row has is that row's.
pub proof fn lemma_previous_status_unique(rows: Seq<(u32, Seq<char>)>, i: int)
    requires
        0 <= i < rows.len(),
        forall|j: int| 0 <= j < rows.len() && j != i ==> #[trigger] rows[j].0 != rows[i].0,
    ensures
        previous_status(rows, rows[i].0) == Some(rows[i].1),
    decreases rows.len(),
{
    if i < rows.len() - 1 {
        assert(rows[rows.len() - 1].0 != rows[i].0);
        assert forall|j: int| 0 <= j < rows.drop_last().len() && j != i implies #[trigger] rows.drop_last()[j].0
            != rows.drop_last()[i].0 by {
            assert(rows.drop_last()[j] == rows[j]);
        }
        lemma_previous_status_unique(rows.drop_last(), i);
    }
}

/// A task whose status the cache already holds calls for no history row.
pub proof fn lemma_no_change_when_held(rows: Seq<(u32, Seq<char>)>, t: TaskModel)
    requires
        previous_status(rows, t.id) == Some(status_name(t.status)),
    ensures
        status_change_of(rows, t) is None,
{
}

/// A second sync of the same tasks logs no history: after the tasks are
/// synced, each of them (no two sharing an id) calls for no history row.
pub proof fn lemma_resync_logs_nothing(ts: Seq<TaskModel>)
    requires
        distinct_ids(ts),
    ensures
        forall|i: int| 0 <= i < ts.len() ==> #[trigger] status_change_of(cached_rows(ts), ts[i]) is None,
{
    let rows = cached_rows(ts);
    assert forall|i: int| 0 <= i < ts.len() implies #[trigger] status_change_of(cached_rows(ts), ts[i])
        is None by {
        assert forall|j: int| 0 <= j < rows.len() && j != i implies #[trigger] rows[j].0 != rows[i].0 by {
            assert(ts[j].id != ts[i].id);
        }
        lemma_previous_status_unique(rows, i);
    }
}

} // verus!
