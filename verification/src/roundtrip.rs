//! What reading back a written line gives: ids survive every rewrite, and a
//! task whose fields the line format can carry comes back whole.

use vstd::prelude::*;
use crate::format::{due_part, format_line, format_parts, head_parts, parent_part, priority_part, priority_word, project_part};
use crate::parser::{
    cre_index, comp_index, due_tag, has_completion, has_creation, has_priority, id_tag,
    initial_tags, is_date_word, is_priority_word, parent_tag, parse_words, pri_index, scan_tags,
    status_tag, tag_step, tags_index, words_completed, TagState,
};
use crate::status::{status_name, TaskStatus};
use crate::task::TaskModel;
use crate::text::{
    decimal, has_prefix, is_blank, is_ws, join_words, lemma_join_concat, lemma_split_join_words, lemma_decimal, lemma_parse_decimal,
    lemma_split_all_concat, lemma_split_all_words, lemma_split_join, lemma_split_ws_empty,
    lemma_split_ws_words, no_ws, parse_u32, split_all, split_ws,
};

verus! {

/// A word that the tag reading keeps in the description: neither `+name`
/// nor a `status:`, `due:`, valid `id:` or valid `parent:` tag.
pub open spec fn plain_word(w: Seq<char>) -> bool {
    &&& !(w.len() > 1 && w[0] == '+')
    &&& !has_prefix(w, status_tag())
    &&& !has_prefix(w, due_tag())
    &&& !(has_prefix(w, id_tag()) && parse_u32(w.subrange(3, w.len() as int)) is Some)
    &&& !(has_prefix(w, parent_tag()) && parse_u32(w.subrange(7, w.len() as int)) is Some)
}

/// A description that a line can carry: its words joined by single spaces,
/// none of them a tag.
pub open spec fn carried_description(s: Seq<char>) -> bool {
    &&& join_words(split_ws(s), ' ') == s
    &&& forall|i: int| 0 <= i < split_ws(s).len() ==> plain_word(#[trigger] split_ws(s)[i])
}

/// A task whose every field the line format carries: dated, with a
/// completion date exactly when completed, an upper-case letter priority, a
/// description of plain words, and a project and due date without spaces.
pub open spec fn carried_task(t: TaskModel) -> bool {
    &&& is_date_word(t.creation_date)
    &&& (t.is_completed ==> (t.completion_date matches Some(cd) && is_date_word(cd)))
    &&& (!t.is_completed ==> t.completion_date is None)
    &&& (t.priority matches Some(p) ==> 'A' <= p <= 'Z')
    &&& carried_description(t.description)
    &&& (t.project matches Some(p) ==> p.len() > 0 && no_ws(p))
    &&& (t.due_date matches Some(d) ==> no_ws(d))
}

/// Reading `a` then `b` is reading `a + b`.
pub proof fn lemma_scan_tags_concat(t: TagState, a: Seq<Seq<char>>, b: Seq<Seq<char>>)
    ensures
        scan_tags(t, a + b) == scan_tags(scan_tags(t, a), b),
    decreases b.len(),
{
    if b.len() == 0 {
        assert(a + b =~= a);
    } else {
        lemma_scan_tags_concat(t, a, b.drop_last());
        assert((a + b).drop_last() =~= a + b.drop_last());
        assert((a + b).last() == b.last());
    }
}

/// Reading one word is one step.
pub proof fn lemma_scan_one(t: TagState, w: Seq<char>)
    ensures
        scan_tags(t, seq![w]) == tag_step(t, w),
{
    let ws = seq![w];
    assert(ws.drop_last() =~= Seq::<Seq<char>>::empty());
    assert(scan_tags(t, ws.drop_last()) == t);
    assert(ws.last() == w);
}

/// Plain words only add to the description.
pub proof fn lemma_scan_plain(t: TagState, ws: Seq<Seq<char>>)
    requires
        forall|i: int| 0 <= i < ws.len() ==> plain_word(#[trigger] ws[i]),
    ensures
        scan_tags(t, ws) == (TagState { desc: t.desc + ws, ..t }),
    decreases ws.len(),
{
    if ws.len() == 0 {
        assert(t.desc + ws =~= t.desc);
    } else {
        lemma_scan_plain(t, ws.drop_last());
        assert(plain_word(ws[ws.len() - 1]));
        assert(t.desc + ws.drop_last() + seq![ws.last()] =~= t.desc + ws);
        assert((t.desc + ws.drop_last()).push(ws.last()) =~= t.desc + ws);
    }
}

/// A word that begins with a prefix begins with its first character.
proof fn lemma_prefix_first(w: Seq<char>, p: Seq<char>)
    requires
        has_prefix(w, p),
        p.len() > 0,
    ensures
        w[0] == p[0],
{
    assert(w.subrange(0, p.len() as int)[0] == w[0]);
}

/// A task whose due date, if any, has no whitespace.
pub open spec fn due_no_ws(t: TaskModel) -> bool {
    t.due_date matches Some(d) ==> no_ws(d)
}

/// The `id:` word of a number.
pub open spec fn id_word(n: u32) -> Seq<char> {
    id_tag() + decimal(n as nat)
}

/// The `id:` word is one word, no header word, and sets the id.
proof fn lemma_id_word(n: u32, t: TagState)
    ensures
        id_word(n).len() > 0,
        no_ws(id_word(n)),
        id_word(n) != seq!['x'],
        !is_priority_word(id_word(n)),
        !is_date_word(id_word(n)),
        tag_step(t, id_word(n)) == (TagState { id: Some(n), ..t }),
{
    let w = id_word(n);
    lemma_decimal(n as nat);
    lemma_parse_decimal(n);
    assert(w[0] == 'i');
    assert(w.len() >= 4);
    assert(no_ws(w)) by {
        assert forall|i: int| 0 <= i < w.len() implies !is_ws(#[trigger] w[i]) by {
            if i >= 3 {
                assert(w[i] == decimal(n as nat)[i - 3]);
            }
        }
    }
    if has_prefix(w, status_tag()) {
        lemma_prefix_first(w, status_tag());
    }
    if has_prefix(w, due_tag()) {
        lemma_prefix_first(w, due_tag());
    }
    assert(w.subrange(0, 3) =~= id_tag());
    assert(w.subrange(3, w.len() as int) =~= decimal(n as nat));
    if w == seq!['x'] {
        assert(w[0] == 'x');
    }
}

/// The `parent:` word of a number.
pub open spec fn parent_word(n: u32) -> Seq<char> {
    parent_tag() + decimal(n as nat)
}

/// The `parent:` word is one word and sets the parent.
proof fn lemma_parent_word(n: u32, t: TagState)
    ensures
        parent_word(n).len() > 0,
        no_ws(parent_word(n)),
        tag_step(t, parent_word(n)) == (TagState { parent: Some(n), ..t }),
{
    let w = parent_word(n);
    lemma_decimal(n as nat);
    lemma_parse_decimal(n);
    assert(w[0] == 'p');
    assert(no_ws(w)) by {
        assert forall|i: int| 0 <= i < w.len() implies !is_ws(#[trigger] w[i]) by {
            if i >= 7 {
                assert(w[i] == decimal(n as nat)[i - 7]);
            }
        }
    }
    if has_prefix(w, status_tag()) {
        lemma_prefix_first(w, status_tag());
    }
    if has_prefix(w, due_tag()) {
        lemma_prefix_first(w, due_tag());
    }
    if has_prefix(w, id_tag()) {
        lemma_prefix_first(w, id_tag());
    }
    assert(w.subrange(0, 7) =~= parent_tag());
    assert(w.subrange(7, w.len() as int) =~= decimal(n as nat));
}

/// The `status:` word of a column.
pub open spec fn status_word(s: TaskStatus) -> Seq<char> {
    status_tag() + status_name(s)
}

/// The `status:` word is one word, no header word, and sets the column.
proof fn lemma_status_word(s: TaskStatus, t: TagState)
    ensures
        status_word(s).len() > 0,
        no_ws(status_word(s)),
        status_word(s) != seq!['x'],
        !is_priority_word(status_word(s)),
        !is_date_word(status_word(s)),
        tag_step(t, status_word(s)) == (TagState { status: s, ..t }),
{
    let w = status_word(s);
    assert(w[0] == 's');
    assert(w.subrange(0, 7) =~= status_tag());
    assert(w.subrange(7, w.len() as int) =~= status_name(s));
    TaskStatus::lemma_name_roundtrip(s);
    assert(no_ws(w)) by {
        assert forall|i: int| 0 <= i < w.len() implies !is_ws(#[trigger] w[i]) by {
            if i >= 7 {
                assert(w[i] == status_name(s)[i - 7]);
            }
        }
    }
    if w == seq!['x'] {
        assert(w[0] == 'x');
    }
}

/// The `due:` word of a date.
pub open spec fn due_word(d: Seq<char>) -> Seq<char> {
    due_tag() + d
}

/// A `due:` word without spaces is one word and sets the due date.
proof fn lemma_due_word(d: Seq<char>, t: TagState)
    requires
        no_ws(d),
    ensures
        due_word(d).len() > 0,
        no_ws(due_word(d)),
        tag_step(t, due_word(d)) == (TagState { due: Some(d), ..t }),
{
    let w = due_word(d);
    assert(w[0] == 'd');
    assert(no_ws(w)) by {
        assert forall|i: int| 0 <= i < w.len() implies !is_ws(#[trigger] w[i]) by {
            if i >= 4 {
                assert(w[i] == d[i - 4]);
            }
        }
    }
    if has_prefix(w, status_tag()) {
        lemma_prefix_first(w, status_tag());
    }
    assert(w.subrange(0, 4) =~= due_tag());
    assert(w.subrange(4, w.len() as int) =~= d);
}

/// A `+project` word of a non-empty name without spaces is one word and sets
/// the project when none is set.
proof fn lemma_project_word(p: Seq<char>, t: TagState)
    requires
        p.len() > 0,
        no_ws(p),
        t.project is None,
    ensures
        (seq!['+'] + p).len() > 0,
        no_ws(seq!['+'] + p),
        tag_step(t, seq!['+'] + p) == (TagState { project: Some(p), ..t }),
{
    let w = seq!['+'] + p;
    assert(w[0] == '+');
    assert(no_ws(w)) by {
        assert forall|i: int| 0 <= i < w.len() implies !is_ws(#[trigger] w[i]) by {
            if i >= 1 {
                assert(w[i] == p[i - 1]);
            }
        }
    }
    assert(w.subrange(1, w.len() as int) =~= p);
}

/// The header of a line (completion mark, priority, dates) ends no later
/// than a word that can be none of these.
pub proof fn lemma_header_before(ws: Seq<Seq<char>>, k: int)
    requires
        0 <= k < ws.len(),
        ws[k] != seq!['x'],
        !is_priority_word(ws[k]),
        !is_date_word(ws[k]),
    ensures
        tags_index(ws) <= k,
{
    if words_completed(ws) {
        assert(k != 0);
    }
    assert(pri_index(ws) <= k);
    if has_priority(ws) {
        assert(pri_index(ws) != k);
    }
    assert(comp_index(ws) <= k);
    if has_completion(ws) {
        assert(comp_index(ws) != k);
    }
    assert(cre_index(ws) <= k);
    if has_creation(ws) {
        assert(cre_index(ws) != k);
    }
}

/// The words of a written line end with the `id:` word and the `parent:` word, if any.
proof fn lemma_line_words_end(t: TaskModel, today: Seq<char>)
    ensures
        ({
            let pre = head_parts(t, today) + seq![t.creation_date, t.description] + project_part(t)
                + seq![status_word(t.status)] + due_part(t);
            split_ws(format_line(t, today)) == split_all(pre) + seq![id_word(t.id)] + split_all(
                parent_part(t),
            )
        }),
        split_all(parent_part(t)) == parent_part(t),
{
    let pre = head_parts(t, today) + seq![t.creation_date, t.description] + project_part(t)
        + seq![status_word(t.status)] + due_part(t);
    assert(format_parts(t, today) =~= pre + seq![id_word(t.id)] + parent_part(t));
    lemma_split_join(format_parts(t, today), ' ');
    lemma_split_all_concat(pre + seq![id_word(t.id)], parent_part(t));
    lemma_split_all_concat(pre, seq![id_word(t.id)]);
    lemma_id_word(t.id, initial_tags());
    lemma_split_all_words(seq![id_word(t.id)]);
    if let Some(p) = t.parent_id {
        lemma_parent_word(p, initial_tags());
        lemma_split_all_words(parent_part(t));
    } else {
        assert(split_all(parent_part(t)) =~= parent_part(t));
    }
}

/// Ids survive a rewrite: the line written for any task is not blank, and
/// reading it back, on any line and with any date for today, gives the id
/// the task had.
pub proof fn lemma_id_survives_rewrite(t: TaskModel, today: Seq<char>, line_num: usize, today2: Seq<char>)
    ensures
        !is_blank(format_line(t, today)),
        parse_words(split_ws(format_line(t, today)), line_num, today2).id == t.id,
{
    let pre = head_parts(t, today) + seq![t.creation_date, t.description] + project_part(t)
        + seq![status_word(t.status)] + due_part(t);
    lemma_line_words_end(t, today);
    let ws = split_ws(format_line(t, today));
    let sp = split_all(pre);
    let par = parent_part(t);
    let k = sp.len() as int;
    assert(ws[k] == id_word(t.id));
    lemma_split_ws_empty(format_line(t, today));
    lemma_id_word(t.id, initial_tags());
    lemma_header_before(ws, k);
    let ti = tags_index(ws);
    let st0 = scan_tags(initial_tags(), ws.subrange(ti, k));
    assert(ws.subrange(ti, ws.len() as int) =~= ws.subrange(ti, k) + (seq![id_word(t.id)] + par));
    lemma_scan_tags_concat(initial_tags(), ws.subrange(ti, k), seq![id_word(t.id)] + par);
    lemma_scan_tags_concat(st0, seq![id_word(t.id)], par);
    lemma_id_word(t.id, st0);
    lemma_scan_one(st0, id_word(t.id));
    let st1 = TagState { id: Some(t.id), ..st0 };
    if let Some(p) = t.parent_id {
        lemma_parent_word(p, st1);
        lemma_scan_one(st1, parent_word(p));
        assert(par == seq![parent_word(p)]);
    } else {
        assert(par =~= Seq::<Seq<char>>::empty());
        assert(scan_tags(st1, par) == st1);
    }
}

/// The words that follow the description on a written line.
pub open spec fn tail_parts(t: TaskModel) -> Seq<Seq<char>> {
    project_part(t) + seq![status_word(t.status)] + due_part(t) + seq![id_word(t.id)] + parent_part(
        t,
    )
}

/// `split_all` of one part is the words of that part.
proof fn lemma_split_all_one(p: Seq<char>)
    ensures
        split_all(seq![p]) == split_ws(p),
{
    let ps = seq![p];
    assert(ps.drop_last() =~= Seq::<Seq<char>>::empty());
    assert(split_all(ps.drop_last()) + split_ws(p) =~= split_ws(p));
}

/// A date word is one word.
proof fn lemma_date_word(w: Seq<char>)
    requires
        is_date_word(w),
    ensures
        w.len() > 0,
        no_ws(w),
        !is_priority_word(w),
        w != seq!['x'],
{
    assert(no_ws(w)) by {
        assert forall|i: int| 0 <= i < w.len() implies !is_ws(#[trigger] w[i]) by {
            assert(i == 4 || i == 7 || ('0' <= w[i] <= '9'));
        }
    }
    if w == seq!['x'] {
        assert(w.len() == 1);
    }
}

/// The words after the description, read from a state with no project, due
/// date or parent, set the task's project, column, due date, id and parent.
proof fn lemma_scan_tail(t: TaskModel, st: TagState)
    requires
        carried_task(t),
        st.project is None,
        st.due is None,
        st.parent is None,
    ensures
        forall|i: int| 0 <= i < tail_parts(t).len() ==> #[trigger] tail_parts(t)[i].len() > 0
            && no_ws(tail_parts(t)[i]),
        scan_tags(st, tail_parts(t)) == (TagState {
            project: t.project,
            status: t.status,
            due: t.due_date,
            id: Some(t.id),
            parent: t.parent_id,
            desc: st.desc,
        }),
{
    let proj = project_part(t);
    let sw = seq![status_word(t.status)];
    let due = due_part(t);
    let idw = seq![id_word(t.id)];
    let par = parent_part(t);
    lemma_scan_tags_concat(st, proj, sw);
    let s1 = scan_tags(st, proj);
    if let Some(p) = t.project {
        lemma_project_word(p, st);
        lemma_scan_one(st, seq!['+'] + p);
    } else {
        assert(proj =~= Seq::<Seq<char>>::empty());
    }
    assert(s1 == TagState { project: t.project, ..st });
    lemma_status_word(t.status, s1);
    lemma_scan_one(s1, status_word(t.status));
    let s2 = TagState { status: t.status, ..s1 };
    lemma_scan_tags_concat(st, proj + sw, due);
    if let Some(d) = t.due_date {
        lemma_due_word(d, s2);
        lemma_scan_one(s2, due_word(d));
        assert(due == seq![due_word(d)]);
    } else {
        assert(due =~= Seq::<Seq<char>>::empty());
    }
    let s3 = TagState { due: t.due_date, ..s2 };
    assert(scan_tags(s2, due) == s3);
    lemma_scan_tags_concat(st, proj + sw + due, idw);
    lemma_id_word(t.id, s3);
    lemma_scan_one(s3, id_word(t.id));
    let s4 = TagState { id: Some(t.id), ..s3 };
    lemma_scan_tags_concat(st, proj + sw + due + idw, par);
    if let Some(p) = t.parent_id {
        lemma_parent_word(p, s4);
        lemma_scan_one(s4, parent_word(p));
        assert(par == seq![parent_word(p)]);
    } else {
        assert(par =~= Seq::<Seq<char>>::empty());
    }
    assert(scan_tags(s4, par) == TagState { parent: t.parent_id, ..s4 });
    let tp = tail_parts(t);
    assert forall|i: int| 0 <= i < tp.len() implies #[trigger] tp[i].len() > 0 && no_ws(tp[i]) by {
        if let Some(p) = t.project {
            lemma_project_word(p, st);
        }
        if let Some(d) = t.due_date {
            lemma_due_word(d, s2);
        }
        if let Some(p) = t.parent_id {
            lemma_parent_word(p, s4);
        }
        let a = proj.len() as int;
        let b = a + 1 + due.len();
        if i < a {
            assert(tp[i] == proj[i]);
        } else if i == a {
            assert(tp[i] == status_word(t.status));
        } else if i < b {
            assert(tp[i] == due[i - a - 1]);
        } else if i == b {
            assert(tp[i] == id_word(t.id));
        } else {
            assert(tp[i] == par[i - b - 1]);
        }
    }
}

/// The words of the head of a line and the creation date: each is one word,
/// and the header reading consumes exactly them.
proof fn lemma_head_words(t: TaskModel, today: Seq<char>, rest: Seq<Seq<char>>)
    requires
        carried_task(t),
    ensures
        ({
            let hc = head_parts(t, today) + seq![t.creation_date];
            let ws = hc + rest;
            &&& forall|i: int| 0 <= i < hc.len() ==> #[trigger] hc[i].len() > 0 && no_ws(hc[i])
            &&& tags_index(ws) == hc.len()
            &&& words_completed(ws) == t.is_completed
            &&& has_priority(ws) == t.priority is Some
            &&& (has_priority(ws) ==> t.priority == Some(ws[pri_index(ws)][1]))
            &&& has_completion(ws) == t.is_completed
            &&& (has_completion(ws) ==> t.completion_date == Some(ws[comp_index(ws)]))
            &&& has_creation(ws)
            &&& ws[cre_index(ws)] == t.creation_date
        }),
{
    let h = head_parts(t, today);
    let hc = h + seq![t.creation_date];
    let ws = hc + rest;
    let pp = priority_part(t);
    lemma_date_word(t.creation_date);
    if let Some(p) = t.priority {
        let pw = priority_word(p);
        assert(no_ws(pw)) by {
            assert forall|i: int| 0 <= i < pw.len() implies !is_ws(#[trigger] pw[i]) by {
                assert(i == 0 || i == 1 || i == 2);
            }
        }
        assert(is_priority_word(pw));
        assert(pw != seq!['x']) by {
            assert(pw.len() == 3);
        }
    }
    if t.is_completed {
        let cd = t.completion_date.unwrap();
        lemma_date_word(cd);
        assert(h == seq![seq!['x']] + pp + seq![cd]);
        assert(ws[0] == seq!['x']);
        assert(pri_index(ws) == 1);
        if let Some(p) = t.priority {
            assert(ws[1] == priority_word(p));
            assert(ws[2] == cd);
            assert(ws[3] == t.creation_date);
        } else {
            assert(ws[1] == cd);
            assert(ws[2] == t.creation_date);
        }
    } else {
        assert(h == pp);
        if let Some(p) = t.priority {
            assert(ws[0] == priority_word(p));
            assert(ws[1] == t.creation_date);
        } else {
            assert(ws[0] == t.creation_date);
        }
    }
    assert forall|i: int| 0 <= i < hc.len() implies #[trigger] hc[i].len() > 0 && no_ws(hc[i]) by {
        if t.is_completed {
            lemma_date_word(t.completion_date.unwrap());
        }
        if i == hc.len() - 1 {
            assert(hc[i] == t.creation_date);
        } else if t.is_completed && i == 0 {
            assert(hc[i] == seq!['x']);
            assert(no_ws(seq!['x'])) by {
                assert forall|j: int| 0 <= j < 1 implies !is_ws(#[trigger] seq!['x'][j]) by {
                    assert(j == 0);
                }
            }
        } else if t.is_completed && i == hc.len() - 2 {
            assert(hc[i] == t.completion_date.unwrap());
        } else {
            assert(hc[i] == priority_word(t.priority.unwrap()));
        }
    }
}

/// The words of the line of a carried task: the head and the creation date,
/// the words of the description, then the tag words.
proof fn lemma_carried_line_words(t: TaskModel, today: Seq<char>)
    requires
        carried_task(t),
    ensures
        split_ws(format_line(t, today)) == (head_parts(t, today) + seq![t.creation_date]) + (
        split_ws(t.description) + tail_parts(t)),
{
    let hc = head_parts(t, today) + seq![t.creation_date];
    let dw = split_ws(t.description);
    let tail = tail_parts(t);
    assert(format_parts(t, today) =~= hc + seq![t.description] + tail);
    lemma_split_join(format_parts(t, today), ' ');
    lemma_split_all_concat(hc + seq![t.description], tail);
    lemma_split_all_concat(hc, seq![t.description]);
    lemma_split_all_one(t.description);
    lemma_scan_tail(t, TagState { desc: dw, ..initial_tags() });
    lemma_split_all_words(tail);
    assert forall|i: int| 0 <= i < hc.len() implies #[trigger] hc[i].len() > 0 && no_ws(hc[i]) by {
        lemma_head_words(t, today, dw + tail);
    }
    lemma_split_all_words(hc);
    assert(split_ws(format_line(t, today)) =~= hc + (dw + tail));
}

/// A written line reads back as the task: for a task whose fields the line
/// format carries, reading back its line, on its own line number and with any
/// date for today, gives the task unchanged.
pub proof fn lemma_write_read_roundtrip(t: TaskModel, today: Seq<char>, today2: Seq<char>)
    requires
        carried_task(t),
    ensures
        !is_blank(format_line(t, today)),
        parse_words(split_ws(format_line(t, today)), t.line_number, today2) == t,
{
    lemma_id_survives_rewrite(t, today, t.line_number, today2);
    let hc = head_parts(t, today) + seq![t.creation_date];
    let dw = split_ws(t.description);
    let tail = tail_parts(t);
    lemma_carried_line_words(t, today);
    let ws = split_ws(format_line(t, today));
    lemma_head_words(t, today, dw + tail);
    assert(ws.subrange(tags_index(ws), ws.len() as int) =~= dw + tail);
    lemma_scan_tags_concat(initial_tags(), dw, tail);
    lemma_scan_plain(initial_tags(), dw);
    assert(initial_tags().desc + dw =~= dw);
    lemma_scan_tail(t, TagState { desc: dw, ..initial_tags() });
    let r = parse_words(ws, t.line_number, today2);
    assert(r.description == t.description);
    assert(r.id == t.id);
    assert(r.priority == t.priority);
    assert(r.completion_date == t.completion_date);
    assert(r.creation_date == t.creation_date);
}

/// A line as the format writes it, field by field: `x`, `(P)` with an
/// upper-case letter, the completion date (exactly when completed), the
/// creation date, a description of plain words, `+project`, `status:S`,
/// `due:D`, `id:N` and `parent:M` (N and M in decimal without leading
/// zeros), joined by single spaces: the line of a task the format carries.
pub open spec fn well_formed_line(l: Seq<char>) -> bool {
    exists|t: TaskModel| carried_task(t) && #[trigger] format_line(t, seq![]) == l
}

/// Writing a task does not depend on its line number, nor on the date for
/// today when it is completed with a completion date or not completed.
pub proof fn lemma_format_ignores(t: TaskModel, k: usize, today: Seq<char>, today2: Seq<char>)
    requires
        t.is_completed ==> t.completion_date is Some,
    ensures
        format_line(TaskModel { line_number: k, ..t }, today) == format_line(t, today2),
{
    assert(head_parts(TaskModel { line_number: k, ..t }, today) =~= head_parts(t, today2));
    assert(format_parts(TaskModel { line_number: k, ..t }, today) =~= format_parts(t, today2));
}

/// Reading a well-formed line and writing the task back gives the line
/// unchanged, whatever line number it is read on and whatever dates stand
/// for today.
pub proof fn lemma_parse_write_roundtrip(l: Seq<char>, k: usize, today: Seq<char>, today2: Seq<char>)
    requires
        well_formed_line(l),
    ensures
        !is_blank(l),
        format_line(parse_words(split_ws(l), k, today), today2) == l,
{
    let t = choose|t: TaskModel| carried_task(t) && #[trigger] format_line(t, seq![]) == l;
    let t2 = TaskModel { line_number: k, ..t };
    lemma_format_ignores(t, k, seq![], seq![]);
    assert(carried_task(t2));
    lemma_write_read_roundtrip(t2, seq![], today);
    lemma_format_ignores(t2, k, today2, seq![]);
    assert(TaskModel { line_number: k, ..t2 } == t2);
}

/// The words after the `status:` word on a written line.
pub open spec fn after_status_parts(t: TaskModel) -> Seq<Seq<char>> {
    due_part(t) + seq![id_word(t.id)] + parent_part(t)
}

/// The words before the `status:` word on a written line, as parts.
pub open spec fn before_status_parts(t: TaskModel, today: Seq<char>) -> Seq<Seq<char>> {
    head_parts(t, today) + seq![t.creation_date, t.description] + project_part(t)
}

/// The words of a written line: those of the parts before the `status:`
/// word, that word, then the words after it, each one word.
proof fn lemma_line_words_around_status(t: TaskModel, today: Seq<char>)
    requires
        due_no_ws(t),
    ensures
        split_ws(format_line(t, today)) == split_all(before_status_parts(t, today)) + seq![
            status_word(t.status),
        ] + after_status_parts(t),
{
    let pre = before_status_parts(t, today);
    let post = after_status_parts(t);
    let sw = status_word(t.status);
    assert(format_parts(t, today) =~= pre + seq![sw] + post);
    lemma_split_join(format_parts(t, today), ' ');
    lemma_split_all_concat(pre + seq![sw], post);
    lemma_split_all_concat(pre, seq![sw]);
    lemma_status_word(t.status, initial_tags());
    lemma_split_all_words(seq![sw]);
    let due = due_part(t);
    let par = parent_part(t);
    lemma_id_word(t.id, initial_tags());
    if let Some(d) = t.due_date {
        lemma_due_word(d, initial_tags());
    }
    if let Some(p) = t.parent_id {
        lemma_parent_word(p, initial_tags());
    }
    assert forall|i: int| 0 <= i < post.len() implies #[trigger] post[i].len() > 0 && no_ws(post[i]) by {
        if i < due.len() {
            assert(post[i] == due[i]);
        } else if i == due.len() {
            assert(post[i] == id_word(t.id));
        } else {
            assert(post[i] == par[i - due.len() - 1]);
        }
    }
    lemma_split_all_words(post);
}

/// The words after the `status:` word leave the column as it is.
proof fn lemma_scan_after_status(t: TaskModel, st: TagState)
    requires
        due_no_ws(t),
    ensures
        scan_tags(st, after_status_parts(t)).status == st.status,
{
    let due = due_part(t);
    let idw = seq![id_word(t.id)];
    let par = parent_part(t);
    assert(after_status_parts(t) =~= due + (idw + par));
    lemma_scan_tags_concat(st, due, idw + par);
    let s2 = scan_tags(st, due);
    if let Some(d) = t.due_date {
        lemma_due_word(d, st);
        lemma_scan_one(st, due_word(d));
        assert(due == seq![due_word(d)]);
    } else {
        assert(due =~= Seq::<Seq<char>>::empty());
    }
    lemma_scan_tags_concat(s2, idw, par);
    lemma_id_word(t.id, s2);
    lemma_scan_one(s2, id_word(t.id));
    let s3 = scan_tags(s2, idw);
    if let Some(p) = t.parent_id {
        lemma_parent_word(p, s3);
        lemma_scan_one(s3, parent_word(p));
        assert(par == seq![parent_word(p)]);
    } else {
        assert(par =~= Seq::<Seq<char>>::empty());
    }
}

/// The column survives a rewrite: for a task whose due date has no spaces,
/// reading back its line, on any line and with any dates, gives its column.
pub proof fn lemma_status_survives_rewrite(t: TaskModel, today: Seq<char>, line_num: usize, today2: Seq<char>)
    requires
        due_no_ws(t),
    ensures
        parse_words(split_ws(format_line(t, today)), line_num, today2).status == t.status,
{
    let sw = status_word(t.status);
    let post = after_status_parts(t);
    lemma_line_words_around_status(t, today);
    lemma_status_word(t.status, initial_tags());
    let ws = split_ws(format_line(t, today));
    let sp = split_all(before_status_parts(t, today));
    let k = sp.len() as int;
    assert(ws[k] == sw);
    lemma_header_before(ws, k);
    let ti = tags_index(ws);
    let st0 = scan_tags(initial_tags(), ws.subrange(ti, k));
    assert(ws.subrange(ti, ws.len() as int) =~= ws.subrange(ti, k) + (seq![sw] + post));
    lemma_scan_tags_concat(initial_tags(), ws.subrange(ti, k), seq![sw] + post);
    lemma_scan_tags_concat(st0, seq![sw], post);
    lemma_status_word(t.status, st0);
    lemma_scan_one(st0, sw);
    lemma_scan_after_status(t, TagState { status: t.status, ..st0 });
}

/// Reading words without whitespace keeps any due date free of whitespace.
pub proof fn lemma_scan_due_no_ws(t: TagState, ws: Seq<Seq<char>>)
    requires
        t.due matches Some(d) ==> no_ws(d),
        forall|i: int| 0 <= i < ws.len() ==> no_ws(#[trigger] ws[i]),
    ensures
        scan_tags(t, ws).due matches Some(d) ==> no_ws(d),
    decreases ws.len(),
{
    if ws.len() > 0 {
        assert forall|i: int| 0 <= i < ws.drop_last().len() implies no_ws(#[trigger] ws.drop_last()[i]) by {
            assert(ws.drop_last()[i] == ws[i]);
        }
        lemma_scan_due_no_ws(t, ws.drop_last());
        let w = ws.last();
        assert(no_ws(ws[ws.len() - 1]));
        let r = w.subrange(4, w.len() as int);
        if w.len() >= 4 {
            assert forall|j: int| 0 <= j < r.len() implies !is_ws(#[trigger] r[j]) by {
                assert(r[j] == w[j + 4]);
            }
        }
    }
}

/// A task read from a line has a due date without whitespace, if any.
pub proof fn lemma_parsed_due_no_ws(line: Seq<char>, line_num: usize, today: Seq<char>)
    ensures
        due_no_ws(parse_words(split_ws(line), line_num, today)),
{
    let ws = split_ws(line);
    lemma_split_ws_words(line);
    let rest = ws.subrange(tags_index(ws), ws.len() as int);
    assert forall|i: int| 0 <= i < rest.len() implies no_ws(#[trigger] rest[i]) by {
        assert(rest[i] == ws[i + tags_index(ws)]);
    }
    lemma_scan_due_no_ws(initial_tags(), rest);
}

/// The words of a grammar line before the creation date: `x` when
/// completed, `(P)` for a priority, the completion date when completed.
pub open spec fn grammar_head(completed: bool, priority: Option<char>, completion: Seq<char>) -> Seq<Seq<char>> {
    (if completed {
        seq![seq!['x']]
    } else {
        seq![]
    }) + match priority {
        Some(p) => seq![priority_word(p)],
        None => seq![],
    } + (if completed {
        seq![completion]
    } else {
        seq![]
    })
}

/// The words of a grammar line after the description: `+project`,
/// `status:S`, `due:D`, `id:N`, `parent:M`.
pub open spec fn grammar_tail(
    project: Option<Seq<char>>,
    status: TaskStatus,
    due: Option<Seq<char>>,
    id: u32,
    parent: Option<u32>,
) -> Seq<Seq<char>> {
    (match project {
        Some(p) => seq![seq!['+'] + p],
        None => seq![],
    }) + seq![status_word(status)] + match due {
        Some(d) => seq![due_word(d)],
        None => seq![],
    } + seq![id_word(id)] + match parent {
        Some(m) => seq![parent_word(m)],
        None => seq![],
    }
}

/// The words of a line laid out by the format's grammar, field by field:
/// `x` when completed, `(P)` for a priority, the completion date when
/// completed, the creation date, the description's words, `+project`,
/// `status:S`, `due:D`, `id:N` and `parent:M`.
pub open spec fn grammar_words(
    completed: bool,
    priority: Option<char>,
    completion: Seq<char>,
    creation: Seq<char>,
    desc_words: Seq<Seq<char>>,
    project: Option<Seq<char>>,
    status: TaskStatus,
    due: Option<Seq<char>>,
    id: u32,
    parent: Option<u32>,
) -> Seq<Seq<char>> {
    grammar_head(completed, priority, completion) + seq![creation] + desc_words + grammar_tail(
        project,
        status,
        due,
        id,
        parent,
    )
}

/// The grammar's conditions on the fields: the priority an upper-case
/// letter, the dates `YYYY-MM-DD`, a non-empty description of plain words
/// without whitespace, a non-empty project and a due date without whitespace.
pub open spec fn grammar_fields(
    completed: bool,
    priority: Option<char>,
    completion: Seq<char>,
    creation: Seq<char>,
    desc_words: Seq<Seq<char>>,
    project: Option<Seq<char>>,
    due: Option<Seq<char>>,
) -> bool {
    &&& (priority matches Some(p) ==> 'A' <= p <= 'Z')
    &&& (completed ==> is_date_word(completion))
    &&& is_date_word(creation)
    &&& desc_words.len() > 0
    &&& forall|i: int|
        0 <= i < desc_words.len() ==> #[trigger] desc_words[i].len() > 0 && no_ws(desc_words[i])
            && plain_word(desc_words[i])
    &&& (project matches Some(p) ==> p.len() > 0 && no_ws(p))
    &&& (due matches Some(d) ==> no_ws(d))
}

/// The task whose fields a grammar line lays out (on line 0).
pub open spec fn grammar_task(
    completed: bool,
    priority: Option<char>,
    completion: Seq<char>,
    creation: Seq<char>,
    desc_words: Seq<Seq<char>>,
    project: Option<Seq<char>>,
    status: TaskStatus,
    due: Option<Seq<char>>,
    id: u32,
    parent: Option<u32>,
) -> TaskModel {
    TaskModel {
        id,
        priority,
        is_completed: completed,
        completion_date: if completed {
            Some(completion)
        } else {
            None
        },
        creation_date: creation,
        description: join_words(desc_words, ' '),
        project,
        status,
        due_date: due,
        parent_id: parent,
        line_number: 0,
    }
}

/// Splicing the words of a description in place of the joined description
/// joins to the same line.
proof fn lemma_join_splice(hc: Seq<Seq<char>>, dw: Seq<Seq<char>>, tail: Seq<Seq<char>>)
    requires
        hc.len() > 0,
        dw.len() > 0,
        tail.len() > 0,
    ensures
        join_words(hc + (seq![join_words(dw, ' ')] + tail), ' ') == join_words(hc + (dw + tail), ' '),
{
    let desc = join_words(dw, ' ');
    lemma_join_concat(hc, seq![desc] + tail, ' ');
    lemma_join_concat(hc, dw + tail, ' ');
    lemma_join_concat(seq![desc], tail, ' ');
    lemma_join_concat(dw, tail, ' ');
    assert(seq![desc].drop_last() =~= Seq::<Seq<char>>::empty());
    assert(join_words(seq![desc], ' ') == desc);
}

/// The task of a grammar line is one the format carries.
proof fn lemma_grammar_task_carried(
    completed: bool,
    priority: Option<char>,
    completion: Seq<char>,
    creation: Seq<char>,
    desc_words: Seq<Seq<char>>,
    project: Option<Seq<char>>,
    status: TaskStatus,
    due: Option<Seq<char>>,
    id: u32,
    parent: Option<u32>,
)
    requires
        grammar_fields(completed, priority, completion, creation, desc_words, project, due),
    ensures
        carried_task(grammar_task(completed, priority, completion, creation, desc_words, project, status, due, id, parent)),
{
    lemma_split_join_words(desc_words);
    assert(carried_description(join_words(desc_words, ' ')));
}

/// The words of a grammar line are those the format writes for its task,
/// with the description's words in place of the joined description.
proof fn lemma_grammar_layout(
    completed: bool,
    priority: Option<char>,
    completion: Seq<char>,
    creation: Seq<char>,
    desc_words: Seq<Seq<char>>,
    project: Option<Seq<char>>,
    status: TaskStatus,
    due: Option<Seq<char>>,
    id: u32,
    parent: Option<u32>,
)
    ensures
        ({
            let t = grammar_task(completed, priority, completion, creation, desc_words, project, status, due, id, parent);
            let hc = head_parts(t, seq![]) + seq![creation];
            &&& format_parts(t, seq![]) == hc + (seq![join_words(desc_words, ' ')] + tail_parts(t))
            &&& grammar_words(completed, priority, completion, creation, desc_words, project, status, due, id, parent)
                == hc + (desc_words + tail_parts(t))
        }),
{
    let t = grammar_task(completed, priority, completion, creation, desc_words, project, status, due, id, parent);
    let desc = join_words(desc_words, ' ');
    let head = head_parts(t, seq![]);
    let tail = tail_parts(t);
    assert(grammar_head(completed, priority, completion) =~= head);
    assert(grammar_tail(project, status, due, id, parent) =~= tail);
    assert(format_parts(t, seq![]) =~= head + seq![creation, desc] + tail) by {
        assert(format_parts(t, seq![]) =~= head + seq![creation, desc] + project_part(t) + seq![
            status_word(status),
        ] + due_part(t) + seq![id_word(id)] + parent_part(t));
    }
    assert(head + seq![creation, desc] + tail =~= (head + seq![creation]) + (seq![desc] + tail));
    assert(head + seq![creation] + desc_words + tail =~= (head + seq![creation]) + (desc_words + tail));
}

/// A line laid out by the grammar is a well-formed line.
pub proof fn lemma_grammar_line_well_formed(
    completed: bool,
    priority: Option<char>,
    completion: Seq<char>,
    creation: Seq<char>,
    desc_words: Seq<Seq<char>>,
    project: Option<Seq<char>>,
    status: TaskStatus,
    due: Option<Seq<char>>,
    id: u32,
    parent: Option<u32>,
)
    requires
        grammar_fields(completed, priority, completion, creation, desc_words, project, due),
    ensures
        well_formed_line(
            join_words(
                grammar_words(
                    completed,
                    priority,
                    completion,
                    creation,
                    desc_words,
                    project,
                    status,
                    due,
                    id,
                    parent,
                ),
                ' ',
            ),
        ),
{
    let t = grammar_task(completed, priority, completion, creation, desc_words, project, status, due, id, parent);
    lemma_grammar_task_carried(completed, priority, completion, creation, desc_words, project, status, due, id, parent);
    lemma_grammar_layout(completed, priority, completion, creation, desc_words, project, status, due, id, parent);
    let hc = head_parts(t, seq![]) + seq![creation];
    lemma_join_splice(hc, desc_words, tail_parts(t));
    assert(format_line(t, seq![]) == join_words(
        grammar_words(completed, priority, completion, creation, desc_words, project, status, due, id, parent),
        ' ',
    ));
}

/// Reading a line laid out by the grammar and writing the task back gives
/// the line, for every line number and any dates standing for today.
pub proof fn lemma_grammar_line_roundtrip(
    completed: bool,
    priority: Option<char>,
    completion: Seq<char>,
    creation: Seq<char>,
    desc_words: Seq<Seq<char>>,
    project: Option<Seq<char>>,
    status: TaskStatus,
    due: Option<Seq<char>>,
    id: u32,
    parent: Option<u32>,
    k: usize,
    today: Seq<char>,
    today2: Seq<char>,
)
    requires
        grammar_fields(completed, priority, completion, creation, desc_words, project, due),
    ensures
        ({
            let l = join_words(
                grammar_words(
                    completed,
                    priority,
                    completion,
                    creation,
                    desc_words,
                    project,
                    status,
                    due,
                    id,
                    parent,
                ),
                ' ',
            );
            &&& !is_blank(l)
            &&& format_line(parse_words(split_ws(l), k, today), today2) == l
        }),
{
    lemma_grammar_line_well_formed(completed, priority, completion, creation, desc_words, project, status, due, id, parent);
    let l = join_words(
        grammar_words(completed, priority, completion, creation, desc_words, project, status, due, id, parent),
        ' ',
    );
    lemma_parse_write_roundtrip(l, k, today, today2);
}

} // verus!
