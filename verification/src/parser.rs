//! Reading one todo.txt line into a task.

use vstd::prelude::*;
use crate::clock::{clock_date, local_today};
use crate::status::{status_from_name, TaskStatus};
use crate::task::{opt_vec, DevTask, TaskModel};
use crate::text::{
    chars_equal, chars_of, copy_chars, has_prefix, is_blank, is_digit, join_chars, join_words,
    lemma_split_ws_empty, parse_u32, parse_u32_chars, split_words, split_ws, starts_with,
    string_from_chars, suffix, words_of,
};

verus! {

/// The characters of the `status:` tag.
pub open spec fn status_tag() -> Seq<char> {
    seq!['s', 't', 'a', 't', 'u', 's', ':']
}

/// The characters of the `due:` tag.
pub open spec fn due_tag() -> Seq<char> {
    seq!['d', 'u', 'e', ':']
}

/// The characters of the `id:` tag.
pub open spec fn id_tag() -> Seq<char> {
    seq!['i', 'd', ':']
}

/// The characters of the `parent:` tag.
pub open spec fn parent_tag() -> Seq<char> {
    seq!['p', 'a', 'r', 'e', 'n', 't', ':']
}

/// A `YYYY-MM-DD` word: ten characters, digits but for `-` at 4 and 7.
pub open spec fn is_date_word(w: Seq<char>) -> bool {
    &&& w.len() == 10
    &&& is_digit(w[0]) && is_digit(w[1]) && is_digit(w[2]) && is_digit(w[3])
    &&& w[4] == '-'
    &&& is_digit(w[5]) && is_digit(w[6])
    &&& w[7] == '-'
    &&& is_digit(w[8]) && is_digit(w[9])
}

/// A priority word: `(`, an upper-case letter `A` to `Z`, `)`.
pub open spec fn is_priority_word(w: Seq<char>) -> bool {
    &&& w.len() == 3
    &&& w[0] == '('
    &&& 'A' <= w[1] <= 'Z'
    &&& w[2] == ')'
}

/// What the tags of a line have set so far, and the words kept for the description.
pub struct TagState {
    pub project: Option<Seq<char>>,
    pub status: TaskStatus,
    pub due: Option<Seq<char>>,
    pub id: Option<u32>,
    pub parent: Option<u32>,
    pub desc: Seq<Seq<char>>,
}

/// Nothing set yet: no project, the Icebox, no due date, id or parent.
pub open spec fn initial_tags() -> TagState {
    TagState {
        project: None,
        status: TaskStatus::Icebox,
        due: None,
        id: None,
        parent: None,
        desc: seq![],
    }
}

/// One word after the dates. `+name` sets the project if none is set yet and
/// is kept in the description otherwise; `status:`, `due:` set their field
/// (the last one wins); `id:` and `parent:` set theirs when a `u32` follows
/// and are kept in the description when not; any other word is description.
pub open spec fn tag_step(t: TagState, w: Seq<char>) -> TagState {
    if w.len() > 1 && w[0] == '+' {
        if t.project is None {
            TagState { project: Some(w.subrange(1, w.len() as int)), ..t }
        } else {
            TagState { desc: t.desc.push(w), ..t }
        }
    } else if has_prefix(w, status_tag()) {
        TagState { status: status_from_name(w.subrange(7, w.len() as int)), ..t }
    } else if has_prefix(w, due_tag()) {
        TagState { due: Some(w.subrange(4, w.len() as int)), ..t }
    } else if has_prefix(w, id_tag()) && parse_u32(w.subrange(3, w.len() as int)) is Some {
        TagState { id: parse_u32(w.subrange(3, w.len() as int)), ..t }
    } else if has_prefix(w, parent_tag()) && parse_u32(w.subrange(7, w.len() as int)) is Some {
        TagState { parent: parse_u32(w.subrange(7, w.len() as int)), ..t }
    } else {
        TagState { desc: t.desc.push(w), ..t }
    }
}

/// The tag state after the words `ws`, read left to right from `t`.
pub open spec fn scan_tags(t: TagState, ws: Seq<Seq<char>>) -> TagState
    decreases ws.len(),
{
    if ws.len() == 0 {
        t
    } else {
        tag_step(scan_tags(t, ws.drop_last()), ws.last())
    }
}

/// Whether the words of a line begin with the completion mark `x`.
pub open spec fn words_completed(ws: Seq<Seq<char>>) -> bool {
    ws.len() > 0 && ws[0] == seq!['x']
}

/// Where the priority word may stand.
pub open spec fn pri_index(ws: Seq<Seq<char>>) -> int {
    if words_completed(ws) {
        1
    } else {
        0
    }
}

/// Whether a priority word is present.
pub open spec fn has_priority(ws: Seq<Seq<char>>) -> bool {
    pri_index(ws) < ws.len() && is_priority_word(ws[pri_index(ws)])
}

/// Where the completion date may stand.
pub open spec fn comp_index(ws: Seq<Seq<char>>) -> int {
    if has_priority(ws) {
        pri_index(ws) + 1
    } else {
        pri_index(ws)
    }
}

/// Whether a completion date is present (only on a completed task).
pub open spec fn has_completion(ws: Seq<Seq<char>>) -> bool {
    words_completed(ws) && comp_index(ws) < ws.len() && is_date_word(ws[comp_index(ws)])
}

/// Where the creation date may stand.
pub open spec fn cre_index(ws: Seq<Seq<char>>) -> int {
    if has_completion(ws) {
        comp_index(ws) + 1
    } else {
        comp_index(ws)
    }
}

/// Whether a creation date is present.
pub open spec fn has_creation(ws: Seq<Seq<char>>) -> bool {
    cre_index(ws) < ws.len() && is_date_word(ws[cre_index(ws)])
}

/// Where the tags and the description begin.
pub open spec fn tags_index(ws: Seq<Seq<char>>) -> int {
    if has_creation(ws) {
        cre_index(ws) + 1
    } else {
        cre_index(ws)
    }
}

/// The task that the words of a non-blank line give, on line `line_num`,
/// with `today` as the creation date when the line has none.
pub open spec fn parse_words(ws: Seq<Seq<char>>, line_num: usize, today: Seq<char>) -> TaskModel {
    let tags = scan_tags(initial_tags(), ws.subrange(tags_index(ws), ws.len() as int));
    TaskModel {
        id: match tags.id {
            Some(n) => n,
            None => 0,
        },
        priority: if has_priority(ws) {
            Some(ws[pri_index(ws)][1])
        } else {
            None
        },
        is_completed: words_completed(ws),
        completion_date: if has_completion(ws) {
            Some(ws[comp_index(ws)])
        } else {
            None
        },
        creation_date: if has_creation(ws) {
            ws[cre_index(ws)]
        } else {
            today
        },
        description: join_words(tags.desc, ' '),
        project: tags.project,
        status: tags.status,
        due_date: tags.due,
        parent_id: tags.parent,
        line_number: line_num,
    }
}

/// The tag state being built while reading a line.
struct Tags {
    project: Option<Vec<char>>,
    status: TaskStatus,
    due: Option<Vec<char>>,
    id: Option<u32>,
    parent: Option<u32>,
    desc: Vec<Vec<char>>,
}

spec fn tags_view(t: Tags) -> TagState {
    TagState {
        project: opt_vec(t.project),
        status: t.status,
        due: opt_vec(t.due),
        id: t.id,
        parent: t.parent,
        desc: words_of(t.desc@),
    }
}

pub(crate) fn status_tag_chars() -> (v: Vec<char>)
    ensures
        v@ == status_tag(),
{
    let v = vec!['s', 't', 'a', 't', 'u', 's', ':'];
    assert(v@ =~= status_tag());
    v
}

pub(crate) fn due_tag_chars() -> (v: Vec<char>)
    ensures
        v@ == due_tag(),
{
    let v = vec!['d', 'u', 'e', ':'];
    assert(v@ =~= due_tag());
    v
}

pub(crate) fn id_tag_chars() -> (v: Vec<char>)
    ensures
        v@ == id_tag(),
{
    let v = vec!['i', 'd', ':'];
    assert(v@ =~= id_tag());
    v
}

pub(crate) fn parent_tag_chars() -> (v: Vec<char>)
    ensures
        v@ == parent_tag(),
{
    let v = vec!['p', 'a', 'r', 'e', 'n', 't', ':'];
    assert(v@ =~= parent_tag());
    v
}

fn is_digit_char(c: char) -> (r: bool)
    ensures
        r == is_digit(c),
{
    '0' <= c && c <= '9'
}

/// Whether a word is a `YYYY-MM-DD` date.
pub fn is_date_chars(w: &Vec<char>) -> (b: bool)
    ensures
        b == is_date_word(w@),
{
    if w.len() != 10 {
        return false;
    }
    is_digit_char(w[0]) && is_digit_char(w[1]) && is_digit_char(w[2]) && is_digit_char(w[3])
        && w[4] == '-' && is_digit_char(w[5]) && is_digit_char(w[6]) && w[7] == '-'
        && is_digit_char(w[8]) && is_digit_char(w[9])
}

/// Whether a word is a priority word such as `(A)`.
pub fn is_priority_chars(w: &Vec<char>) -> (b: bool)
    ensures
        b == is_priority_word(w@),
{
    w.len() == 3 && w[0] == '(' && 'A' <= w[1] && w[1] <= 'Z' && w[2] == ')'
}

/// Applies one word to the tag state.
fn tag_step_exec(t: &mut Tags, w: &Vec<char>)
    ensures
        tags_view(*final(t)) == tag_step(tags_view(*old(t)), w@),
{
    let ghost w_view = w@;
    if w.len() > 1 && w[0] == '+' {
        if t.project.is_none() {
            t.project = Some(suffix(w, 1));
        } else {
            let ghost before = words_of(t.desc@);
            t.desc.push(copy_chars(w));
            assert(words_of(t.desc@) =~= before.push(w_view));
        }
    } else if starts_with(w, &status_tag_chars()) {
        let name = string_from_chars(suffix(w, 7));
        t.status = TaskStatus::from_str(name.as_str());
    } else if starts_with(w, &due_tag_chars()) {
        t.due = Some(suffix(w, 4));
    } else {
        let is_id = starts_with(w, &id_tag_chars());
        let id_val = if is_id {
            parse_u32_chars(&suffix(w, 3))
        } else {
            None
        };
        if is_id && id_val.is_some() {
            t.id = id_val;
        } else {
            let is_parent = starts_with(w, &parent_tag_chars());
            let parent_val = if is_parent {
                parse_u32_chars(&suffix(w, 7))
            } else {
                None
            };
            if is_parent && parent_val.is_some() {
                t.parent = parent_val;
            } else {
                let ghost before = words_of(t.desc@);
                t.desc.push(copy_chars(w));
                assert(words_of(t.desc@) =~= before.push(w_view));
            }
        }
    }
}

/// Reads the words from `start` on as tags and description.
fn scan_tag_words(words: &Vec<Vec<char>>, start: usize) -> (t: Tags)
    requires
        start <= words@.len(),
    ensures
        tags_view(t) == scan_tags(initial_tags(), words_of(words@).subrange(start as int, words@.len() as int)),
{
    let mut t = Tags {
        project: None,
        status: TaskStatus::Icebox,
        due: None,
        id: None,
        parent: None,
        desc: Vec::new(),
    };
    assert(words_of(t.desc@) =~= Seq::<Seq<char>>::empty());
    assert(words_of(words@).subrange(start as int, start as int) =~= Seq::<Seq<char>>::empty());
    let mut i: usize = start;
    while i < words.len()
        invariant
            start <= i <= words@.len(),
            tags_view(t) == scan_tags(initial_tags(), words_of(words@).subrange(start as int, i as int)),
        decreases words.len() - i,
    {
        let ghost all = words_of(words@);
        assert(all.subrange(start as int, i + 1).drop_last() =~= all.subrange(start as int, i as int));
        assert(all.subrange(start as int, i + 1).last() == words@[i as int]@);
        tag_step_exec(&mut t, &words[i]);
        i = i + 1;
    }
    t
}

/// The task that the words of a non-blank line give; `today` is the creation
/// date when the line has none.
pub fn task_from_words(words: &Vec<Vec<char>>, line_num: usize, today: &str) -> (t: DevTask)
    ensures
        t@ == parse_words(words_of(words@), line_num, today@),
{
    let ghost ws = words_of(words@);
    let n = words.len();
    let x_word = vec!['x'];
    assert(x_word@ =~= seq!['x']);
    let completed = n > 0 && chars_equal(&words[0], &x_word);
    assert(completed == words_completed(ws));
    let i1: usize = if completed { 1 } else { 0 };
    let has_pri = i1 < n && is_priority_chars(&words[i1]);
    assert(has_pri == has_priority(ws));
    let priority = if has_pri {
        Some(words[i1][1])
    } else {
        None
    };
    let i2: usize = if has_pri { i1 + 1 } else { i1 };
    let has_cd = completed && i2 < n && is_date_chars(&words[i2]);
    assert(has_cd == has_completion(ws));
    let completion_date = if has_cd {
        Some(string_from_chars(copy_chars(&words[i2])))
    } else {
        None
    };
    let i3: usize = if has_cd { i2 + 1 } else { i2 };
    let has_cr = i3 < n && is_date_chars(&words[i3]);
    assert(has_cr == has_creation(ws));
    let creation_date = if has_cr {
        string_from_chars(copy_chars(&words[i3]))
    } else {
        today.to_owned()
    };
    let i4: usize = if has_cr { i3 + 1 } else { i3 };
    let tags = scan_tag_words(words, i4);
    let Tags { project, status, due, id, parent, desc } = tags;
    let description = string_from_chars(join_chars(&desc, ' '));
    let project = match project {
        Some(p) => Some(string_from_chars(p)),
        None => None,
    };
    let due_date = match due {
        Some(d) => Some(string_from_chars(d)),
        None => None,
    };
    let id = match id {
        Some(n) => n,
        None => 0,
    };
    DevTask {
        id,
        priority,
        is_completed: completed,
        completion_date,
        creation_date,
        description,
        project,
        status,
        due_date,
        parent_id: parent,
        line_number: line_num,
    }
}

/// Reads one line, with `today` as the creation date when the line has none.
/// A blank line is refused with "Empty line".
pub fn parse_line_on(line: &str, line_num: usize, today: &str) -> (res: Result<DevTask, String>)
    ensures
        res is Err <==> is_blank(line@),
        res matches Err(e) ==> e@ == "Empty line"@,
        res matches Ok(t) ==> t@ == parse_words(split_ws(line@), line_num, today@),
{
    let chars = chars_of(line);
    let words = split_words(&chars);
    proof {
        lemma_split_ws_empty(line@);
    }
    if words.len() == 0 {
        return Err("Empty line".to_owned());
    }
    Ok(task_from_words(&words, line_num, today))
}

/// Reads one line of todo.txt; a line without a creation date gets today's
/// date on the local clock. A blank line is refused with "Empty line".
pub fn parse_line(line: &str, line_num: usize) -> (res: Result<DevTask, String>)
    ensures
        res is Err <==> is_blank(line@),
        res matches Err(e) ==> e@ == "Empty line"@,
        res matches Ok(t) ==> exists|today: Seq<char>| clock_date(today) &&
            t@ == #[trigger] parse_words(split_ws(line@), line_num, today),
{
    let today = local_today();
    let res = parse_line_on(line, line_num, today.as_str());
    if let Ok(t) = &res {
        assert(t@ == parse_words(split_ws(line@), line_num, today@));
    }
    res
}

} // verus!
