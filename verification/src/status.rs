//! The four board columns a task can stand in.

use vstd::prelude::*;
use crate::text::str_equals;

verus! {

/// A board column: Icebox, Todo, In Progress or Done.
#[derive(Clone, Copy, Debug, PartialEq, Eq, Structural)]
pub enum TaskStatus {
    Icebox,
    Todo,
    Progress,
    Done,
}

/// The lower-case name of a column, as it stands in a `status:` tag.
pub open spec fn status_name(s: TaskStatus) -> Seq<char> {
    match s {
        TaskStatus::Icebox => seq!['i', 'c', 'e', 'b', 'o', 'x'],
        TaskStatus::Todo => seq!['t', 'o', 'd', 'o'],
        TaskStatus::Progress => seq!['p', 'r', 'o', 'g', 'r', 'e', 's', 's'],
        TaskStatus::Done => seq!['d', 'o', 'n', 'e'],
    }
}

/// The column named by an already lower-cased name; any other name is the Icebox.
pub open spec fn status_from_lower(l: Seq<char>) -> TaskStatus {
    if l == status_name(TaskStatus::Todo) {
        TaskStatus::Todo
    } else if l == status_name(TaskStatus::Progress) {
        TaskStatus::Progress
    } else if l == status_name(TaskStatus::Done) {
        TaskStatus::Done
    } else {
        TaskStatus::Icebox
    }
}

/// ASCII lower-casing of one character.
pub open spec fn ascii_lower(c: char) -> char {
    if 'A' <= c <= 'Z' {
        ((c as u32) + 32) as char
    } else {
        c
    }
}

/// ASCII lower-casing of a character sequence.
pub open spec fn ascii_lower_seq(s: Seq<char>) -> Seq<char> {
    Seq::new(s.len(), |i: int| ascii_lower(s[i]))
}

/// What `str::to_lowercase` returns: the Unicode lower-case equivalent of a string.
pub uninterp spec fn lowercase(s: Seq<char>) -> Seq<char>;

/// The lower-case form of a name: ASCII lower-casing for an ASCII name
/// (which is what Unicode lower-casing does there), `lowercase` otherwise.
pub open spec fn lower_name(s: Seq<char>) -> Seq<char> {
    if vstd::utf8::is_ascii_chars(s) {
        ascii_lower_seq(s)
    } else {
        lowercase(s)
    }
}

/// The column that `TaskStatus::from_str` gives for a name: the name is
/// lower-cased and looked up.
pub open spec fn status_from_name(s: Seq<char>) -> TaskStatus {
    status_from_lower(lower_name(s))
}

/// Calls `str::to_lowercase`. Its result is named `lowercase`; on a string of
/// ASCII characters it is the ASCII lower-casing, as the Unicode lower-case
/// mapping of an ASCII letter is its ASCII lower-case letter and every other
/// ASCII character maps to itself. Nothing more is claimed of other input.
#[verifier::external_body]
pub(crate) fn str_to_lowercase(s: &str) -> (r: String)
    ensures
        r@ == lowercase(s@),
        vstd::utf8::is_ascii_chars(s@) ==> r@ == ascii_lower_seq(s@),
{
    s.to_lowercase()
}

impl TaskStatus {
    /// The column whose name is the given lower-case string; any other string is the Icebox.
    pub fn from_lowercase(s: &str) -> (r: Self)
        ensures
            r == status_from_lower(s@),
    {
        proof {
            reveal_strlit("todo");
            reveal_strlit("progress");
            reveal_strlit("done");
        }
        assert("todo"@ =~= status_name(TaskStatus::Todo));
        assert("progress"@ =~= status_name(TaskStatus::Progress));
        assert("done"@ =~= status_name(TaskStatus::Done));
        if str_equals(s, "todo") {
            TaskStatus::Todo
        } else if str_equals(s, "progress") {
            TaskStatus::Progress
        } else if str_equals(s, "done") {
            TaskStatus::Done
        } else {
            TaskStatus::Icebox
        }
    }

    /// The column named by `s`, compared without regard to case; an unknown
    /// name is the Icebox.
    pub fn from_str(s: &str) -> (r: Self)
        ensures
            r == status_from_name(s@),
    {
        let lower = str_to_lowercase(s);
        Self::from_lowercase(lower.as_str())
    }

    /// Reading back the name of a column gives the column.
    pub proof fn lemma_name_roundtrip(s: TaskStatus)
        ensures
            status_from_name(status_name(s)) == s,
            status_from_lower(status_name(s)) == s,
    {
        assert(ascii_lower_seq(status_name(s)) =~= status_name(s));
    }

    /// The lower-case name of the column.
    pub fn to_str(&self) -> (r: &'static str)
        ensures
            r@ == status_name(*self),
    {
        match self {
            TaskStatus::Icebox => {
                proof {
                    reveal_strlit("icebox");
                }
                assert("icebox"@ =~= status_name(TaskStatus::Icebox));
                "icebox"
            },
            TaskStatus::Todo => {
                proof {
                    reveal_strlit("todo");
                }
                assert("todo"@ =~= status_name(TaskStatus::Todo));
                "todo"
            },
            TaskStatus::Progress => {
                proof {
                    reveal_strlit("progress");
                }
                assert("progress"@ =~= status_name(TaskStatus::Progress));
                "progress"
            },
            TaskStatus::Done => {
                proof {
                    reveal_strlit("done");
                }
                assert("done"@ =~= status_name(TaskStatus::Done));
                "done"
            },
        }
    }
}

} // verus!
