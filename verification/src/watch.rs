//! When the file watcher reloads todo.txt: only for outside edits, and once
//! for a burst of them.

use vstd::prelude::*;

verus! {

/// How long after its own write the program ignores changes to todo.txt.
pub const SELF_WRITE_WINDOW_MS: u64 = 500;

/// Whether an event is an outside edit of todo.txt: a modification that
/// touches the file, not within the window after the program's own write.
pub open spec fn reload_wanted(is_modify: bool, touches_todo: bool, ms_since_own_write: Option<u64>) -> bool {
    &&& is_modify
    &&& touches_todo
    &&& !(ms_since_own_write matches Some(ms) && ms < SELF_WRITE_WINDOW_MS)
}

/// Decides whether a watcher event is an outside edit of todo.txt.
pub fn should_reload(is_modify: bool, touches_todo: bool, ms_since_own_write: Option<u64>) -> (r: bool)
    ensures
        r == reload_wanted(is_modify, touches_todo, ms_since_own_write),
{
    let recent = match ms_since_own_write {
        Some(ms) => ms < SELF_WRITE_WINDOW_MS,
        None => false,
    };
    is_modify && touches_todo && !recent
}

/// What the watcher sees: an event on the watched directory, or the start of
/// a scheduled reload (after the debounce delay, before the file is read).
#[derive(Clone, Copy, Debug, PartialEq, Eq, Structural)]
pub enum WatchEvent {
    FileEvent { is_modify: bool, touches_todo: bool, ms_since_own_write: Option<u64> },
    ReloadStarted,
}

/// What the watcher does next.
#[derive(Clone, Copy, Debug, PartialEq, Eq, Structural)]
pub enum WatchAction {
    /// Nothing.
    Ignore,
    /// Schedule one reload: wait the debounce delay, then reload.
    ScheduleReload,
    /// Read the file and resync now.
    Reload,
}

/// The watcher's next state (whether a reload is scheduled and not yet
/// started) and action: an outside edit schedules a reload unless one is
/// already scheduled, so a burst of edits collapses into one reload; a
/// starting reload clears the flag, so an edit made after the file is read
/// schedules the next one.
pub open spec fn watch_next(pending: bool, e: WatchEvent) -> (bool, WatchAction) {
    match e {
        WatchEvent::FileEvent { is_modify, touches_todo, ms_since_own_write } => {
            if reload_wanted(is_modify, touches_todo, ms_since_own_write) && !pending {
                (true, WatchAction::ScheduleReload)
            } else {
                (pending, WatchAction::Ignore)
            }
        },
        WatchEvent::ReloadStarted => (false, WatchAction::Reload),
    }
}

/// One step of the watcher: from whether a reload is scheduled and an event,
/// to the next such flag and the action to take.
pub fn watch_step(pending: bool, e: WatchEvent) -> (r: (bool, WatchAction))
    ensures
        r == watch_next(pending, e),
{
    match e {
        WatchEvent::FileEvent { is_modify, touches_todo, ms_since_own_write } => {
            if should_reload(is_modify, touches_todo, ms_since_own_write) && !pending {
                (true, WatchAction::ScheduleReload)
            } else {
                (pending, WatchAction::Ignore)
            }
        },
        WatchEvent::ReloadStarted => (false, WatchAction::Reload),
    }
}

/// At most one reload is scheduled at a time: while one is, no event
/// schedules another, and only its start clears the flag.
pub proof fn lemma_one_scheduled(e: WatchEvent)
    ensures
        watch_next(true, e).1 != WatchAction::ScheduleReload,
        watch_next(true, e).0 == !(e is ReloadStarted),
        watch_next(false, e).1 == WatchAction::ScheduleReload ==> watch_next(false, e).0,
{
}

} // verus!
