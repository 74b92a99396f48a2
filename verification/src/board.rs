//! What the command line does to the list of tasks: add a task, move one to
//! another column, complete one, remove one.

use vstd::prelude::*;
use crate::clock::{clock_date, local_today};
use crate::status::{ascii_lower_seq, lower_name, status_name, str_to_lowercase, TaskStatus};
use crate::text::{decimal, push_decimal, push_str, str_equals, string_from_chars};
use crate::sync::{lemma_max_id, lines_of, max_id};
use crate::task::{opt_chars, task_models, DevTask, TaskModel};

verus! {

/// The column a new task starts in: In Progress if asked, else Todo if
/// asked, else the Icebox.
pub open spec fn new_task_status(todo: bool, progress: bool) -> TaskStatus {
    if progress {
        TaskStatus::Progress
    } else if todo {
        TaskStatus::Todo
    } else {
        TaskStatus::Icebox
    }
}

/// The task that `add` appends: the next id after the greatest, created
/// `today`, not completed, on the line after the last.
pub open spec fn new_task_model(
    ts: Seq<TaskModel>,
    description: Seq<char>,
    project: Option<Seq<char>>,
    priority: Option<char>,
    todo: bool,
    progress: bool,
    today: Seq<char>,
) -> TaskModel {
    TaskModel {
        id: (max_id(ts) + 1) as u32,
        priority,
        is_completed: false,
        completion_date: None,
        creation_date: today,
        description,
        project,
        status: new_task_status(todo, progress),
        due_date: None,
        parent_id: None,
        line_number: (ts.len() + 1) as usize,
    }
}

/// The index of the first task with the id, or the number of tasks when none has it.
pub open spec fn first_index(ts: Seq<TaskModel>, id: u32) -> int
    decreases ts.len(),
{
    if ts.len() == 0 {
        0
    } else {
        let r = first_index(ts.drop_last(), id);
        if r < ts.len() - 1 {
            r
        } else if ts.last().id == id {
            ts.len() - 1
        } else {
            ts.len() as int
        }
    }
}

/// A task moved to a column: Done marks it completed and keeps its
/// completion date or dates it `today`; any other column clears both.
pub open spec fn transitioned(t: TaskModel, s: TaskStatus, today: Seq<char>) -> TaskModel {
    if s == TaskStatus::Done {
        TaskModel {
            status: s,
            is_completed: true,
            completion_date: if t.completion_date is Some {
                t.completion_date
            } else {
                Some(today)
            },
            ..t
        }
    } else {
        TaskModel { status: s, is_completed: false, completion_date: None, ..t }
    }
}

/// A task completed `today`: Done, completed, with `today` as its completion date.
pub open spec fn completed(t: TaskModel, today: Seq<char>) -> TaskModel {
    TaskModel {
        status: TaskStatus::Done,
        is_completed: true,
        completion_date: Some(today),
        ..t
    }
}

/// The tasks without the given id, in their order.
pub open spec fn without_id(ts: Seq<TaskModel>, id: u32) -> Seq<TaskModel>
    decreases ts.len(),
{
    if ts.len() == 0 {
        seq![]
    } else {
        let prev = without_id(ts.drop_last(), id);
        if ts.last().id == id {
            prev
        } else {
            prev.push(ts.last())
        }
    }
}

/// `first_index` finds the first task with the id, if any.
pub proof fn lemma_first_index(ts: Seq<TaskModel>, id: u32)
    ensures
        0 <= first_index(ts, id) <= ts.len(),
        first_index(ts, id) < ts.len() ==> ts[first_index(ts, id)].id == id,
        forall|j: int| 0 <= j < first_index(ts, id) ==> #[trigger] ts[j].id != id,
    decreases ts.len(),
{
    if ts.len() > 0 {
        lemma_first_index(ts.drop_last(), id);
        assert forall|j: int| 0 <= j < first_index(ts, id) implies #[trigger] ts[j].id != id by {
            if j < ts.len() - 1 {
                assert(ts[j] == ts.drop_last()[j]);
            }
        }
    }
}

/// A moved task stands in the target column, is completed exactly when that
/// column is Done, and has a completion date exactly then; nothing else of it
/// changes.
pub proof fn lemma_transition_consistent(t: TaskModel, s: TaskStatus, today: Seq<char>)
    ensures
        transitioned(t, s, today).status == s,
        transitioned(t, s, today).is_completed == (s == TaskStatus::Done),
        transitioned(t, s, today).completion_date is Some <==> s == TaskStatus::Done,
        transitioned(t, s, today).id == t.id,
        transitioned(t, s, today).description == t.description,
        transitioned(t, s, today).line_number == t.line_number,
{
}

/// A new task's id is greater than every id already there, so it clashes with none.
pub proof fn lemma_new_id_fresh(
    ts: Seq<TaskModel>,
    description: Seq<char>,
    project: Option<Seq<char>>,
    priority: Option<char>,
    todo: bool,
    progress: bool,
    today: Seq<char>,
)
    requires
        max_id(ts) < u32::MAX,
    ensures
        forall|i: int|
            0 <= i < ts.len() ==> #[trigger] ts[i].id < new_task_model(
                ts,
                description,
                project,
                priority,
                todo,
                progress,
                today,
            ).id,
{
    lemma_max_id(ts);
}

/// The column of an added task: In Progress whenever progress is asked for,
/// whether or not todo is; Todo when todo alone is asked for; the Icebox
/// when neither is.
pub proof fn lemma_new_task_column(
    ts: Seq<TaskModel>,
    description: Seq<char>,
    project: Option<Seq<char>>,
    priority: Option<char>,
    todo: bool,
    progress: bool,
    today: Seq<char>,
)
    ensures
        new_task_model(ts, description, project, priority, todo, progress, today).status
            == TaskStatus::Progress <==> progress,
        !progress && todo ==> new_task_model(ts, description, project, priority, todo, progress, today).status
            == TaskStatus::Todo,
        !progress && !todo ==> new_task_model(ts, description, project, priority, todo, progress, today).status
            == TaskStatus::Icebox,
{
}

/// The greatest id of the tasks.
pub fn max_task_id(tasks: &Vec<DevTask>) -> (m: u32)
    ensures
        m == max_id(task_models(tasks@)),
{
    let ghost ts = task_models(tasks@);
    let mut m: u32 = 0;
    let mut i: usize = 0;
    while i < tasks.len()
        invariant
            i <= tasks@.len(),
            ts == task_models(tasks@),
            m == max_id(ts.subrange(0, i as int)),
        decreases tasks.len() - i,
    {
        assert(ts.subrange(0, i + 1).drop_last() =~= ts.subrange(0, i as int));
        assert(ts.subrange(0, i + 1).last() == ts[i as int]);
        if tasks[i].id > m {
            m = tasks[i].id;
        }
        i = i + 1;
    }
    assert(ts.subrange(0, tasks@.len() as int) =~= ts);
    m
}

/// Appends a new task, created `today`, with the next id after the greatest
/// and the line after the last.
pub fn add_task_on(
    tasks: &mut Vec<DevTask>,
    description: String,
    project: Option<String>,
    priority: Option<char>,
    todo: bool,
    progress: bool,
    today: &str,
)
    requires
        max_id(task_models(old(tasks)@)) < u32::MAX,
        old(tasks)@.len() < usize::MAX,
    ensures
        task_models(final(tasks)@) == task_models(old(tasks)@).push(
            new_task_model(
                task_models(old(tasks)@),
                description@,
                opt_chars(project),
                priority,
                todo,
                progress,
                today@,
            ),
        ),
{
    let ghost ts = task_models(tasks@);
    let max = max_task_id(tasks);
    let status = if progress {
        TaskStatus::Progress
    } else if todo {
        TaskStatus::Todo
    } else {
        TaskStatus::Icebox
    };
    let t = DevTask {
        id: max + 1,
        priority,
        is_completed: false,
        completion_date: None,
        creation_date: today.to_owned(),
        description,
        project,
        status,
        due_date: None,
        parent_id: None,
        line_number: tasks.len() + 1,
    };
    let ghost tv = t@;
    tasks.push(t);
    assert(task_models(tasks@) =~= ts.push(tv));
}

/// Appends a new task created today on the local clock, with the next id
/// after the greatest and the line after the last.
pub fn add_task(
    tasks: &mut Vec<DevTask>,
    description: String,
    project: Option<String>,
    priority: Option<char>,
    todo: bool,
    progress: bool,
)
    requires
        max_id(task_models(old(tasks)@)) < u32::MAX,
        old(tasks)@.len() < usize::MAX,
    ensures
        exists|today: Seq<char>| clock_date(today) &&
            task_models(final(tasks)@) == task_models(old(tasks)@).push(
                #[trigger] new_task_model(
                    task_models(old(tasks)@),
                    description@,
                    opt_chars(project),
                    priority,
                    todo,
                    progress,
                    today,
                ),
            ),
{
    let today = local_today();
    add_task_on(tasks, description, project, priority, todo, progress, today.as_str());
}

/// The index of the first task with the id, or the number of tasks.
fn find_task(tasks: &Vec<DevTask>, id: u32) -> (k: usize)
    ensures
        k == first_index(task_models(tasks@), id),
{
    let ghost ts = task_models(tasks@);
    proof {
        lemma_first_index(ts, id);
    }
    let mut i: usize = 0;
    while i < tasks.len()
        invariant
            i <= tasks@.len(),
            ts == task_models(tasks@),
            forall|j: int| 0 <= j < i ==> #[trigger] ts[j].id != id,
            0 <= first_index(ts, id) <= ts.len(),
            first_index(ts, id) < ts.len() ==> ts[first_index(ts, id)].id == id,
            forall|j: int| 0 <= j < first_index(ts, id) ==> #[trigger] ts[j].id != id,
        decreases tasks.len() - i,
    {
        if tasks[i].id == id {
            assert(ts[i as int].id == id);
            return i;
        }
        i = i + 1;
    }
    i
}

/// Moves the first task with the id to a column; Done completes it (dated
/// `today` unless it has a completion date), any other column reopens it.
/// Returns whether a task with the id was found.
pub fn transition_task_on(tasks: &mut Vec<DevTask>, id: u32, status: TaskStatus, today: &str) -> (found: bool)
    ensures
        found == (first_index(task_models(old(tasks)@), id) < old(tasks)@.len()),
        found ==> task_models(final(tasks)@) == task_models(old(tasks)@).update(
            first_index(task_models(old(tasks)@), id),
            transitioned(
                task_models(old(tasks)@)[first_index(task_models(old(tasks)@), id)],
                status,
                today@,
            ),
        ),
        !found ==> final(tasks)@ == old(tasks)@,
{
    let ghost ts = task_models(tasks@);
    let k = find_task(tasks, id);
    if k == tasks.len() {
        return false;
    }
    let ghost before = tasks@;
    tasks[k].status = status;
    if status == TaskStatus::Done {
        tasks[k].is_completed = true;
        if tasks[k].completion_date.is_none() {
            tasks[k].completion_date = Some(today.to_owned());
        }
    } else {
        tasks[k].is_completed = false;
        tasks[k].completion_date = None;
    }
    assert(task_models(tasks@) =~= ts.update(k as int, transitioned(ts[k as int], status, today@)))
        by {
        assert forall|j: int| 0 <= j < tasks@.len() && j != k implies tasks@[j] == before[j] by {}
    }
    true
}

/// Moves the first task with the id to a column, dating a newly completed
/// task today on the local clock. Returns whether a task with the id was found.
pub fn transition_task(tasks: &mut Vec<DevTask>, id: u32, status: TaskStatus) -> (found: bool)
    ensures
        found == (first_index(task_models(old(tasks)@), id) < old(tasks)@.len()),
        found ==> exists|today: Seq<char>| clock_date(today) &&
            task_models(final(tasks)@) == task_models(old(tasks)@).update(
                first_index(task_models(old(tasks)@), id),
                #[trigger] transitioned(
                    task_models(old(tasks)@)[first_index(task_models(old(tasks)@), id)],
                    status,
                    today,
                ),
            ),
        !found ==> final(tasks)@ == old(tasks)@,
{
    let today = local_today();
    transition_task_on(tasks, id, status, today.as_str())
}

/// Completes the first task with the id: Done, completed, dated `today`.
/// Returns whether a task with the id was found.
pub fn complete_task_on(tasks: &mut Vec<DevTask>, id: u32, today: &str) -> (found: bool)
    ensures
        found == (first_index(task_models(old(tasks)@), id) < old(tasks)@.len()),
        found ==> task_models(final(tasks)@) == task_models(old(tasks)@).update(
            first_index(task_models(old(tasks)@), id),
            completed(task_models(old(tasks)@)[first_index(task_models(old(tasks)@), id)], today@),
        ),
        !found ==> final(tasks)@ == old(tasks)@,
{
    let ghost ts = task_models(tasks@);
    let k = find_task(tasks, id);
    if k == tasks.len() {
        return false;
    }
    let ghost before = tasks@;
    tasks[k].is_completed = true;
    tasks[k].status = TaskStatus::Done;
    tasks[k].completion_date = Some(today.to_owned());
    assert(task_models(tasks@) =~= ts.update(k as int, completed(ts[k as int], today@))) by {
        assert forall|j: int| 0 <= j < tasks@.len() && j != k implies tasks@[j] == before[j] by {}
    }
    true
}

/// Completes the first task with the id, dated today on the local clock.
/// Returns whether a task with the id was found.
pub fn complete_task(tasks: &mut Vec<DevTask>, id: u32) -> (found: bool)
    ensures
        found == (first_index(task_models(old(tasks)@), id) < old(tasks)@.len()),
        found ==> exists|today: Seq<char>| clock_date(today) &&
            task_models(final(tasks)@) == task_models(old(tasks)@).update(
                first_index(task_models(old(tasks)@), id),
                #[trigger] completed(
                    task_models(old(tasks)@)[first_index(task_models(old(tasks)@), id)],
                    today,
                ),
            ),
        !found ==> final(tasks)@ == old(tasks)@,
{
    let today = local_today();
    complete_task_on(tasks, id, today.as_str())
}

/// Removing keeps every other task, in order, and only those; it drops
/// something exactly when some task had the id.
pub proof fn lemma_without_id(ts: Seq<TaskModel>, id: u32)
    ensures
        forall|j: int| 0 <= j < without_id(ts, id).len() ==> #[trigger] without_id(ts, id)[j].id != id,
        without_id(ts, id).len() <= ts.len(),
        without_id(ts, id).len() < ts.len() <==> first_index(ts, id) < ts.len(),
    decreases ts.len(),
{
    if ts.len() > 0 {
        lemma_without_id(ts.drop_last(), id);
        lemma_first_index(ts.drop_last(), id);
        lemma_first_index(ts, id);
    }
}

/// Removing by id keeps exactly the tasks whose id differs, in their order:
/// the tasks that name the removed one as parent stay.
pub proof fn lemma_remove_keeps_others(ts: Seq<TaskModel>, id: u32)
    ensures
        without_id(ts, id) == ts.filter(|t: TaskModel| t.id != id),
        forall|i: int| 0 <= i < ts.len() && ts[i].id != id ==> without_id(ts, id).contains(#[trigger] ts[i]),
    decreases ts.len(),
{
    reveal(Seq::filter);
    if ts.len() > 0 {
        lemma_remove_keeps_others(ts.drop_last(), id);
    }
    assert forall|i: int| 0 <= i < ts.len() && ts[i].id != id implies without_id(ts, id).contains(
        #[trigger] ts[i],
    ) by {
        ts.lemma_filter_contains(|t: TaskModel| t.id != id, i);
    }
}

/// Removes every task with the id, keeping the others in order. Returns
/// whether any task was removed.
pub fn remove_task(tasks: &mut Vec<DevTask>, id: u32) -> (removed: bool)
    ensures
        task_models(final(tasks)@) == without_id(task_models(old(tasks)@), id),
        removed == (first_index(task_models(old(tasks)@), id) < old(tasks)@.len()),
{
    let ghost ts = task_models(tasks@);
    let initial_len = tasks.len();
    let mut i: usize = 0;
    let mut j: usize = 0;
    assert(ts.subrange(0, 0) =~= Seq::<TaskModel>::empty());
    assert(ts.subrange(0, ts.len() as int) =~= ts);
    while i < tasks.len()
        invariant
            initial_len == ts.len(),
            j <= ts.len(),
            i == without_id(ts.subrange(0, j as int), id).len(),
            task_models(tasks@) == without_id(ts.subrange(0, j as int), id) + ts.subrange(
                j as int,
                ts.len() as int,
            ),
        decreases ts.len() - j,
    {
        let ghost pre = without_id(ts.subrange(0, j as int), id);
        let ghost rest = ts.subrange(j as int, ts.len() as int);
        assert(ts.subrange(0, j + 1).drop_last() =~= ts.subrange(0, j as int));
        assert(task_models(tasks@)[i as int] == rest[0]);
        assert(rest[0] == ts[j as int]);
        assert(ts.subrange(0, j + 1).last() == ts[j as int]);
        if tasks[i].id == id {
            let ghost before = tasks@;
            let _gone = tasks.remove(i);
            assert(tasks@ == before.remove(i as int));
            let ghost target = pre + ts.subrange(j + 1, ts.len() as int);
            assert(task_models(before) == pre + rest);
            assert(task_models(before).len() == before.len());
            assert((pre + rest).len() == pre.len() + rest.len());
            assert(before.len() == pre.len() + rest.len());
            assert(tasks@.len() == before.len() - 1);
            assert forall|k: int| 0 <= k < task_models(tasks@).len() implies #[trigger] task_models(
                tasks@,
            )[k] == target[k] by {
                if k < i {
                    assert(tasks@[k] == before[k]);
                    assert(task_models(before)[k] == pre[k]);
                } else {
                    assert(tasks@[k] == before[k + 1]);
                    assert(pre.len() == i);
                    assert(k + 1 < pre.len() + rest.len());
                    assert((pre + rest)[k + 1] == rest[k + 1 - i]);
                    assert(task_models(before)[k + 1] == before[k + 1]@);
                    assert(task_models(before)[k + 1] == rest[k + 1 - i]);
                    assert(rest[k + 1 - i] == ts[j + 1 + k - i]);
                }
            }
            assert(task_models(tasks@) =~= target);
        } else {
            assert(pre.push(ts[j as int]) + ts.subrange(j + 1, ts.len() as int) =~= pre + rest);
            i = i + 1;
        }
        j = j + 1;
    }
    assert(j == ts.len()) by {
        if j < ts.len() {
            assert(task_models(tasks@).len() == i + (ts.len() - j));
        }
    }
    assert(ts.subrange(j as int, ts.len() as int) =~= Seq::<TaskModel>::empty());
    assert(task_models(tasks@) =~= without_id(ts, id));
    proof {
        lemma_without_id(ts, id);
    }
    tasks.len() < initial_len
}

/// The column a `transition --to` argument names: its lower-case form must
/// be one of the four column names; anything else is refused.
pub open spec fn target_status(to: Seq<char>) -> Option<TaskStatus> {
    let l = lower_name(to);
    if l == status_name(TaskStatus::Icebox) {
        Some(TaskStatus::Icebox)
    } else if l == status_name(TaskStatus::Todo) {
        Some(TaskStatus::Todo)
    } else if l == status_name(TaskStatus::Progress) {
        Some(TaskStatus::Progress)
    } else if l == status_name(TaskStatus::Done) {
        Some(TaskStatus::Done)
    } else {
        None
    }
}

/// Reads the column a `transition --to` argument names, without regard to
/// case; `None` when it names none of the four.
pub fn parse_target_status(to: &str) -> (r: Option<TaskStatus>)
    ensures
        r == target_status(to@),
{
    let lower = str_to_lowercase(to);
    assert(lower@ == lower_name(to@));
    let l = lower.as_str();
    if !str_equals(l, TaskStatus::Icebox.to_str()) && !str_equals(l, TaskStatus::Todo.to_str())
        && !str_equals(l, TaskStatus::Progress.to_str()) && !str_equals(l, TaskStatus::Done.to_str()) {
        return None;
    }
    let st = TaskStatus::from_str(l);
    proof {
        TaskStatus::lemma_name_roundtrip(TaskStatus::Icebox);
        TaskStatus::lemma_name_roundtrip(TaskStatus::Todo);
        TaskStatus::lemma_name_roundtrip(TaskStatus::Progress);
        TaskStatus::lemma_name_roundtrip(TaskStatus::Done);
    }
    Some(st)
}

/// A transition target is accepted exactly when its lower-case form is the
/// name of a column, and then it names that column.
pub proof fn lemma_target_names_column(to: Seq<char>, s: TaskStatus)
    ensures
        target_status(to) == Some(s) <==> lower_name(to) == status_name(s),
{
}

/// Every column is accepted as a transition target under its name written in
/// any mix of upper and lower case, and names that column.
pub proof fn lemma_target_any_case(to: Seq<char>, s: TaskStatus)
    requires
        vstd::utf8::is_ascii_chars(to),
        ascii_lower_seq(to) == status_name(s),
    ensures
        target_status(to) == Some(s),
{
    lemma_target_names_column(to, s);
}

/// The upper-case name of a column, as the board heading shows it.
pub open spec fn heading_name(s: TaskStatus) -> Seq<char> {
    match s {
        TaskStatus::Icebox => seq!['I', 'C', 'E', 'B', 'O', 'X'],
        TaskStatus::Todo => seq!['T', 'O', 'D', 'O'],
        TaskStatus::Progress => seq!['P', 'R', 'O', 'G', 'R', 'E', 'S', 'S'],
        TaskStatus::Done => seq!['D', 'O', 'N', 'E'],
    }
}

/// The heading printed above a column: an empty line, then `=== NAME ===`.
pub open spec fn column_heading(s: TaskStatus) -> Seq<char> {
    seq!['\n', '=', '=', '=', ' '] + heading_name(s) + seq![' ', '=', '=', '=']
}

/// The entry of a task on the board: `  #id: (P) description`, the priority
/// only when it has one.
pub open spec fn task_entry(t: TaskModel) -> Seq<char> {
    seq![' ', ' ', '#'] + decimal(t.id as nat) + seq![':', ' '] + match t.priority {
        Some(p) => seq!['(', p, ')', ' '],
        None => seq![],
    } + t.description
}

/// The entries of the tasks in a column, in file order.
pub open spec fn column_entries(ts: Seq<TaskModel>, s: TaskStatus) -> Seq<Seq<char>>
    decreases ts.len(),
{
    if ts.len() == 0 {
        seq![]
    } else {
        let prev = column_entries(ts.drop_last(), s);
        if ts.last().status == s {
            prev.push(task_entry(ts.last()))
        } else {
            prev
        }
    }
}

/// Each column lists exactly the tasks standing in it, one entry each, in
/// file order.
pub proof fn lemma_column_lists_its_tasks(ts: Seq<TaskModel>, s: TaskStatus)
    ensures
        column_entries(ts, s) == ts.filter(|t: TaskModel| t.status == s).map_values(
            |t: TaskModel| task_entry(t),
        ),
    decreases ts.len(),
{
    reveal(Seq::filter);
    if ts.len() > 0 {
        lemma_column_lists_its_tasks(ts.drop_last(), s);
        let f = ts.drop_last().filter(|t: TaskModel| t.status == s);
        if ts.last().status == s {
            assert(f.push(ts.last()).map_values(|t: TaskModel| task_entry(t)) =~= f.map_values(
                |t: TaskModel| task_entry(t),
            ).push(task_entry(ts.last())));
        }
    } else {
        assert(ts.filter(|t: TaskModel| t.status == s).map_values(|t: TaskModel| task_entry(t))
            =~= Seq::<Seq<char>>::empty());
    }
}

/// The line shown for a column without tasks.
pub open spec fn empty_marker() -> Seq<char> {
    seq![' ', ' ', '(', 'E', 'm', 'p', 't', 'y', ')']
}

/// The lines of one column: its heading, then its entries or the empty marker.
pub open spec fn column_lines(ts: Seq<TaskModel>, s: TaskStatus) -> Seq<Seq<char>> {
    seq![column_heading(s)] + if column_entries(ts, s).len() == 0 {
        seq![empty_marker()]
    } else {
        column_entries(ts, s)
    }
}

/// The lines that `status` prints: the four columns, Icebox to Done.
pub open spec fn board_lines(ts: Seq<TaskModel>) -> Seq<Seq<char>> {
    column_lines(ts, TaskStatus::Icebox) + column_lines(ts, TaskStatus::Todo) + column_lines(
        ts,
        TaskStatus::Progress,
    ) + column_lines(ts, TaskStatus::Done)
}

/// Every task is on the board: its entry stands among the lines of the
/// column it is in.
pub proof fn lemma_board_shows_every_task(ts: Seq<TaskModel>, i: int)
    requires
        0 <= i < ts.len(),
    ensures
        column_lines(ts, ts[i].status).contains(task_entry(ts[i])),
        board_lines(ts).contains(task_entry(ts[i])),
{
    let s = ts[i].status;
    let f = ts.filter(|t: TaskModel| t.status == s);
    lemma_column_lists_its_tasks(ts, s);
    ts.lemma_filter_contains(|t: TaskModel| t.status == s, i);
    let k = choose|k: int| 0 <= k < f.len() && f[k] == ts[i];
    let es = column_entries(ts, s);
    assert(es[k] == task_entry(ts[i]));
    let cl = column_lines(ts, s);
    assert(cl[k + 1] == task_entry(ts[i]));
    let ic = column_lines(ts, TaskStatus::Icebox);
    let tc = column_lines(ts, TaskStatus::Todo);
    let pc = column_lines(ts, TaskStatus::Progress);
    let dc = column_lines(ts, TaskStatus::Done);
    let b = board_lines(ts);
    match s {
        TaskStatus::Icebox => {
            assert(b[k + 1] == cl[k + 1]);
        },
        TaskStatus::Todo => {
            assert(b[ic.len() + k + 1] == cl[k + 1]);
        },
        TaskStatus::Progress => {
            assert(b[ic.len() + tc.len() + k + 1] == cl[k + 1]);
        },
        TaskStatus::Done => {
            assert(b[ic.len() + tc.len() + pc.len() + k + 1] == cl[k + 1]);
        },
    }
}

fn heading_str(s: TaskStatus) -> (r: &'static str)
    ensures
        r@ == heading_name(s),
{
    match s {
        TaskStatus::Icebox => {
            proof {
                reveal_strlit("ICEBOX");
            }
            assert("ICEBOX"@ =~= heading_name(s));
            "ICEBOX"
        },
        TaskStatus::Todo => {
            proof {
                reveal_strlit("TODO");
            }
            assert("TODO"@ =~= heading_name(s));
            "TODO"
        },
        TaskStatus::Progress => {
            proof {
                reveal_strlit("PROGRESS");
            }
            assert("PROGRESS"@ =~= heading_name(s));
            "PROGRESS"
        },
        TaskStatus::Done => {
            proof {
                reveal_strlit("DONE");
            }
            assert("DONE"@ =~= heading_name(s));
            "DONE"
        },
    }
}

/// The entry line of one task.
fn task_entry_chars(t: &DevTask) -> (r: Vec<char>)
    ensures
        r@ == task_entry(t@),
{
    let mut r = vec![' ', ' ', '#'];
    push_decimal(&mut r, t.id);
    r.push(':');
    r.push(' ');
    let ghost mid = r@;
    if let Some(p) = t.priority {
        r.push('(');
        r.push(p);
        r.push(')');
        r.push(' ');
        assert(r@ =~= mid + seq!['(', p, ')', ' ']);
    } else {
        assert(r@ =~= mid + Seq::<char>::empty());
    }
    push_str(&mut r, t.description.as_str());
    assert(r@ =~= task_entry(t@));
    r
}

/// Appends the lines of one column.
fn push_column(out: &mut Vec<String>, tasks: &Vec<DevTask>, s: TaskStatus)
    ensures
        lines_of(final(out)@) == lines_of(old(out)@) + column_lines(task_models(tasks@), s),
{
    let ghost ts = task_models(tasks@);
    let mut h = vec!['\n', '=', '=', '=', ' '];
    push_str(&mut h, heading_str(s));
    h.push(' ');
    h.push('=');
    h.push('=');
    h.push('=');
    assert(h@ =~= column_heading(s));
    let ghost start = lines_of(out@);
    let hs = string_from_chars(h);
    out.push(hs);
    assert(lines_of(out@) =~= start.push(column_heading(s)));
    let ghost after_heading = lines_of(out@);
    let mut any = false;
    let mut i: usize = 0;
    assert(ts.subrange(0, 0) =~= Seq::<TaskModel>::empty());
    while i < tasks.len()
        invariant
            i <= tasks@.len(),
            ts == task_models(tasks@),
            lines_of(out@) == after_heading + column_entries(ts.subrange(0, i as int), s),
            any == (column_entries(ts.subrange(0, i as int), s).len() > 0),
        decreases tasks.len() - i,
    {
        let ghost before = lines_of(out@);
        assert(ts.subrange(0, i + 1).drop_last() =~= ts.subrange(0, i as int));
        assert(ts.subrange(0, i + 1).last() == ts[i as int]);
        if tasks[i].status == s {
            let e = string_from_chars(task_entry_chars(&tasks[i]));
            let ghost ev = e@;
            out.push(e);
            assert(lines_of(out@) =~= before.push(ev));
            any = true;
        }
        i = i + 1;
    }
    assert(ts.subrange(0, tasks@.len() as int) =~= ts);
    if !any {
        let m = "  (Empty)".to_owned();
        proof {
            reveal_strlit("  (Empty)");
        }
        assert(m@ =~= empty_marker());
        let ghost before = lines_of(out@);
        out.push(m);
        assert(lines_of(out@) =~= before.push(empty_marker()));
    }
    assert(lines_of(out@) =~= lines_of(old(out)@) + column_lines(ts, s));
}

/// The lines that `status` prints for the board: for each column from the
/// Icebox to Done, its heading, then one entry per task in it in file order,
/// or `  (Empty)`.
pub fn board_status_lines(tasks: &Vec<DevTask>) -> (lines: Vec<String>)
    ensures
        lines_of(lines@) == board_lines(task_models(tasks@)),
{
    let mut out: Vec<String> = Vec::new();
    assert(lines_of(out@) =~= Seq::<Seq<char>>::empty());
    push_column(&mut out, tasks, TaskStatus::Icebox);
    push_column(&mut out, tasks, TaskStatus::Todo);
    push_column(&mut out, tasks, TaskStatus::Progress);
    push_column(&mut out, tasks, TaskStatus::Done);
    assert(lines_of(out@) =~= board_lines(task_models(tasks@)));
    out
}

} // verus!
