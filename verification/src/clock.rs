//! Today's date on the local clock.

use vstd::prelude::*;
use crate::parser::is_date_word;
use crate::text::is_digit;

verus! {

/// What every date the clock gives is: a `YYYY-MM-DD` date word for the
/// years 1000 to 9999, and past 9999 a `+`, the year's digits, then `-MM-DD`
/// (`%Y` writes four digits, or a sign and more digits outside those years;
/// `%m` and `%d` write two zero-padded digits each).
pub open spec fn clock_date(s: Seq<char>) -> bool {
    ||| is_date_word(s)
    ||| {
        &&& s.len() > 10
        &&& s[0] == '+'
        &&& forall|i: int| 0 <= i < s.len() ==> is_digit(#[trigger] s[i]) || s[i] == '-' || s[i] == '+'
    }
}

/// A date of the clock in a year up to 9999, ten characters long, is a
/// `YYYY-MM-DD` date word: the words that reading a line takes as a date.
pub proof fn lemma_clock_date_word(s: Seq<char>)
    requires
        clock_date(s),
        s.len() == 10,
    ensures
        is_date_word(s),
{
}

/// Calls `chrono::Local::now()` and formats it with `"%Y-%m-%d"` through
/// chrono's `DelayedFormat`. Which date comes back depends on the clock and
/// the time zone of the machine, so the contract states what holds of every
/// date: chrono panics (and so returns nothing) on a clock set before 1970,
/// so the local year is at least 1969, written as four digits up to 9999 and
/// with a `+` after.
#[verifier::external_body]
pub(crate) fn local_today() -> (s: String)
    ensures
        clock_date(s@),
{
    chrono::Local::now().format("%Y-%m-%d").to_string()
}

} // verus!
