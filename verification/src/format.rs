//! Writing a task back as one todo.txt line.

use vstd::prelude::*;
use crate::clock::{clock_date, local_today};
use crate::parser::{due_tag, due_tag_chars, id_tag, id_tag_chars, parent_tag, parent_tag_chars, status_tag, status_tag_chars};
use crate::status::status_name;
use crate::task::{DevTask, TaskModel};
use crate::text::{chars_of, copy_chars, decimal, join_chars, join_words, push_decimal, push_str, string_from_chars, words_of};

verus! {

/// The priority word `(p)`.
pub open spec fn priority_word(p: char) -> Seq<char> {
    seq!['(', p, ')']
}

/// The priority word of a task, if it has a priority.
pub open spec fn priority_part(t: TaskModel) -> Seq<Seq<char>> {
    match t.priority {
        Some(p) => seq![priority_word(p)],
        None => seq![],
    }
}

/// The parts of a task's line before the creation date: `x`, the priority and
/// the completion date (`today` when it has none) for a completed task; the
/// priority alone otherwise.
pub open spec fn head_parts(t: TaskModel, today: Seq<char>) -> Seq<Seq<char>> {
    if t.is_completed {
        seq![seq!['x']] + priority_part(t) + seq![
            match t.completion_date {
                Some(cd) => cd,
                None => today,
            },
        ]
    } else {
        priority_part(t)
    }
}

/// The `+project` word of a task, if it has a project.
pub open spec fn project_part(t: TaskModel) -> Seq<Seq<char>> {
    match t.project {
        Some(p) => seq![seq!['+'] + p],
        None => seq![],
    }
}

/// The `due:` word of a task, if it has a due date.
pub open spec fn due_part(t: TaskModel) -> Seq<Seq<char>> {
    match t.due_date {
        Some(d) => seq![due_tag() + d],
        None => seq![],
    }
}

/// The `parent:` word of a task, if it has a parent.
pub open spec fn parent_part(t: TaskModel) -> Seq<Seq<char>> {
    match t.parent_id {
        Some(p) => seq![parent_tag() + decimal(p as nat)],
        None => seq![],
    }
}

/// The parts of a task's line, in order, before they are joined by spaces.
pub open spec fn format_parts(t: TaskModel, today: Seq<char>) -> Seq<Seq<char>> {
    head_parts(t, today) + seq![t.creation_date, t.description] + project_part(t) + seq![
        status_tag() + status_name(t.status),
    ] + due_part(t) + seq![id_tag() + decimal(t.id as nat)] + parent_part(t)
}

/// The line of a task: its parts joined by single spaces.
pub open spec fn format_line(t: TaskModel, today: Seq<char>) -> Seq<char> {
    join_words(format_parts(t, today), ' ')
}

/// Whether writing the task needs today's date: a completed task without a
/// completion date.
pub open spec fn needs_today(t: TaskModel) -> bool {
    t.is_completed && t.completion_date is None
}

/// Appends copies of the words `b` to `a`.
fn append_words(a: &mut Vec<Vec<char>>, b: &Vec<Vec<char>>)
    ensures
        words_of(final(a)@) == words_of(old(a)@) + words_of(b@),
{
    let mut i: usize = 0;
    while i < b.len()
        invariant
            i <= b@.len(),
            words_of(a@) == words_of(old(a)@) + words_of(b@).subrange(0, i as int),
        decreases b.len() - i,
    {
        let ghost before = words_of(a@);
        let w = copy_chars(&b[i]);
        a.push(w);
        assert(words_of(a@) =~= before.push(b@[i as int]@));
        i = i + 1;
        assert(words_of(old(a)@) + words_of(b@).subrange(0, i as int) =~= before.push(
            b@[i - 1]@,
        ));
    }
    assert(words_of(b@).subrange(0, b@.len() as int) =~= words_of(b@));
}

/// The words of a task's line before the creation date.
fn head_words(task: &DevTask, today: &str) -> (v: Vec<Vec<char>>)
    ensures
        words_of(v@) == head_parts(task@, today@),
{
    let ghost t = task@;
    let mut parts: Vec<Vec<char>> = Vec::new();
    let ghost mut acc: Seq<Seq<char>> = seq![];
    if task.is_completed {
        let x = vec!['x'];
        assert(x@ =~= seq!['x']);
        proof {
            acc = acc.push(x@);
        }
        parts.push(x);
        assert(words_of(parts@) =~= acc);
        if let Some(p) = task.priority {
            let w = vec!['(', p, ')'];
            assert(w@ =~= priority_word(p));
            proof {
                acc = acc.push(w@);
            }
            parts.push(w);
            assert(words_of(parts@) =~= acc);
        }
        let cd = match &task.completion_date {
            Some(cd) => chars_of(cd.as_str()),
            None => chars_of(today),
        };
        proof {
            acc = acc.push(cd@);
        }
        parts.push(cd);
        assert(words_of(parts@) =~= acc);
        assert(acc =~= head_parts(t, today@));
    } else if let Some(p) = task.priority {
        let w = vec!['(', p, ')'];
        assert(w@ =~= priority_word(p));
        proof {
            acc = acc.push(w@);
        }
        parts.push(w);
        assert(words_of(parts@) =~= acc);
        assert(acc =~= head_parts(t, today@));
    } else {
        assert(words_of(parts@) =~= head_parts(t, today@));
    }
    parts
}

/// The `+project` word, if any.
fn project_words(task: &DevTask) -> (v: Vec<Vec<char>>)
    ensures
        words_of(v@) == project_part(task@),
{
    let mut parts: Vec<Vec<char>> = Vec::new();
    if let Some(p) = &task.project {
        let mut w = vec!['+'];
        assert(w@ =~= seq!['+']);
        push_str(&mut w, p.as_str());
        let ghost wv = w@;
        parts.push(w);
        assert(words_of(parts@) =~= seq![wv]);
    } else {
        assert(words_of(parts@) =~= Seq::<Seq<char>>::empty());
    }
    parts
}

/// The `due:` word, if any.
fn due_words(task: &DevTask) -> (v: Vec<Vec<char>>)
    ensures
        words_of(v@) == due_part(task@),
{
    let mut parts: Vec<Vec<char>> = Vec::new();
    if let Some(d) = &task.due_date {
        let mut w = due_tag_chars();
        push_str(&mut w, d.as_str());
        let ghost wv = w@;
        parts.push(w);
        assert(words_of(parts@) =~= seq![wv]);
    } else {
        assert(words_of(parts@) =~= Seq::<Seq<char>>::empty());
    }
    parts
}

/// The `parent:` word, if any.
fn parent_words(task: &DevTask) -> (v: Vec<Vec<char>>)
    ensures
        words_of(v@) == parent_part(task@),
{
    let mut parts: Vec<Vec<char>> = Vec::new();
    if let Some(p) = task.parent_id {
        let mut w = parent_tag_chars();
        push_decimal(&mut w, p);
        let ghost wv = w@;
        parts.push(w);
        assert(words_of(parts@) =~= seq![wv]);
    } else {
        assert(words_of(parts@) =~= Seq::<Seq<char>>::empty());
    }
    parts
}

/// Writes a task as one line; a completed task without a completion date gets `today`.
pub fn format_task_on(task: &DevTask, today: &str) -> (r: String)
    ensures
        r@ == format_line(task@, today@),
{
    let ghost t = task@;
    let mut parts = head_words(task, today);
    let ghost p0 = words_of(parts@);
    let cr = chars_of(task.creation_date.as_str());
    parts.push(cr);
    let de = chars_of(task.description.as_str());
    parts.push(de);
    assert(words_of(parts@) =~= p0 + seq![t.creation_date, t.description]);
    append_words(&mut parts, &project_words(task));
    let ghost p1 = words_of(parts@);
    let mut s = status_tag_chars();
    push_str(&mut s, task.status.to_str());
    parts.push(s);
    assert(words_of(parts@) =~= p1 + seq![status_tag() + status_name(t.status)]);
    append_words(&mut parts, &due_words(task));
    let ghost p2 = words_of(parts@);
    let mut w = id_tag_chars();
    push_decimal(&mut w, task.id);
    parts.push(w);
    assert(words_of(parts@) =~= p2 + seq![id_tag() + decimal(t.id as nat)]);
    append_words(&mut parts, &parent_words(task));
    assert(words_of(parts@) =~= format_parts(t, today@));
    string_from_chars(join_chars(&parts, ' '))
}

/// Writes a task as one todo.txt line. A completed task without a completion
/// date is written with today's date on the local clock.
pub fn format_task(task: &DevTask) -> (r: String)
    ensures
        !needs_today(task@) ==> r@ == format_line(task@, seq![]),
        needs_today(task@) ==> exists|today: Seq<char>| clock_date(today) && r@ == #[trigger] format_line(task@, today),
{
    if task.is_completed && task.completion_date.is_none() {
        let today = local_today();
        format_task_on(task, today.as_str())
    } else {
        proof {
            reveal_strlit("");
        }
        let r = format_task_on(task, "");
        assert(format_parts(task@, ""@) =~= format_parts(task@, seq![]));
        r
    }
}

} // verus!
