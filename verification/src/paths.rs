//! Where the board's files live: walking up from the working directory to
//! the nearest directory that holds `todo.txt` or `.git`, else the global
//! directory `~/.dev2step`.

use vstd::prelude::*;

verus! {

/// What to do at a directory of the walk.
#[derive(Clone, Copy, Debug, PartialEq, Eq, Structural)]
pub enum LookupStep {
    /// The files live here.
    Here,
    /// Go on to the parent directory.
    Up,
    /// No directory up to the root is marked: use the global directory.
    Fallback,
}

/// The step at a directory: stay where `todo.txt` or `.git` is, else go up
/// while there is a parent, else fall back.
pub open spec fn step_of(has_todo: bool, has_git: bool, has_parent: bool) -> LookupStep {
    if has_todo || has_git {
        LookupStep::Here
    } else if has_parent {
        LookupStep::Up
    } else {
        LookupStep::Fallback
    }
}

/// Decides the step at one directory of the walk.
pub fn lookup_step(has_todo: bool, has_git: bool, has_parent: bool) -> (s: LookupStep)
    ensures
        s == step_of(has_todo, has_git, has_parent),
{
    if has_todo || has_git {
        LookupStep::Here
    } else if has_parent {
        LookupStep::Up
    } else {
        LookupStep::Fallback
    }
}

/// Where the walk ends, from directory `i` of a chain that runs from the
/// working directory up to the root (`marks[i]` tells whether directory `i`
/// holds `todo.txt` and `.git`; every directory but the last has a parent).
pub open spec fn walk_from(marks: Seq<(bool, bool)>, i: int) -> Option<int>
    decreases marks.len() - i,
{
    if i < 0 || i >= marks.len() {
        None
    } else {
        match step_of(marks[i].0, marks[i].1, i + 1 < marks.len()) {
            LookupStep::Here => Some(i),
            LookupStep::Up => walk_from(marks, i + 1),
            LookupStep::Fallback => None,
        }
    }
}

/// A directory that holds `todo.txt` or `.git`.
pub open spec fn marked(m: (bool, bool)) -> bool {
    m.0 || m.1
}

/// The walk finds the nearest marked directory: it stops at the first one
/// (counting up from `i`) that holds `todo.txt` or `.git`, and falls back
/// exactly when none does.
pub proof fn lemma_walk_nearest(marks: Seq<(bool, bool)>, i: int)
    requires
        0 <= i <= marks.len(),
    ensures
        walk_from(marks, i) matches Some(j) ==> i <= j < marks.len() && marked(marks[j]) && forall|
            k: int,
        |
            i <= k < j ==> !marked(#[trigger] marks[k]),
        walk_from(marks, i) is None <==> forall|k: int| i <= k < marks.len() ==> !marked(
            #[trigger] marks[k],
        ),
    decreases marks.len() - i,
{
    if i < marks.len() {
        lemma_walk_nearest(marks, i + 1);
    }
}

} // verus!
