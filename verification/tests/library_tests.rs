use dev2step::paths::{lookup_step, LookupStep};
use dev2step::watch::{should_reload, watch_step, WatchAction, WatchEvent};
use dev2step::board::{
    add_task_on, board_status_lines, complete_task_on, max_task_id, parse_target_status,
    remove_task, transition_task_on,
};
use dev2step::db_plan::{delete_stale_sql, status_change};
use dev2step::format::{format_task, format_task_on};
use dev2step::parser::{parse_line, parse_line_on};
use dev2step::status::TaskStatus;
use dev2step::sync::{assign_missing_ids, ids_fit_for, render_lines_on, tasks_from_lines_on};
use dev2step::task::DevTask;

fn task(id: u32, status: TaskStatus, line: usize) -> DevTask {
    DevTask {
        id,
        priority: None,
        is_completed: false,
        completion_date: None,
        creation_date: "2026-06-17".to_string(),
        description: format!("Task {}", id),
        project: None,
        status,
        due_date: None,
        parent_id: None,
        line_number: line,
    }
}

fn strings(v: &[&str]) -> Vec<String> {
    v.iter().map(|s| s.to_string()).collect()
}

#[test]
fn assigns_missing_ids_and_renumbers_lines() {
    let lines = strings(&["Task without ID status:todo", "", "Task with ID status:progress id:10"]);
    let mut tasks = tasks_from_lines_on(&lines, "2026-06-20");
    assert_eq!(tasks.len(), 2);
    assert_eq!(tasks[0].line_number, 1);
    assert_eq!(tasks[1].line_number, 3);
    assert!(ids_fit_for(&tasks));
    let rewrite = assign_missing_ids(&mut tasks);
    assert!(rewrite);
    assert_eq!(tasks[0].id, 11);
    assert_eq!(tasks[0].line_number, 1);
    assert_eq!(tasks[0].description, "Task without ID");
    assert_eq!(tasks[1].id, 10);
    assert_eq!(tasks[1].line_number, 2);
    assert_eq!(tasks[1].description, "Task with ID");
    let out = render_lines_on(&tasks, "2026-06-20");
    assert_eq!(out.len(), 2);
    assert_eq!(out[0], "2026-06-20 Task without ID status:todo id:11");
    assert_eq!(out[1], "2026-06-20 Task with ID status:progress id:10");
}

#[test]
fn keeps_line_numbers_when_no_id_is_missing() {
    let lines = strings(&["Task one status:todo id:1", "   ", "Task two id:2"]);
    let mut tasks = tasks_from_lines_on(&lines, "2026-06-20");
    let rewrite = assign_missing_ids(&mut tasks);
    assert!(!rewrite);
    assert_eq!(tasks[0].line_number, 1);
    assert_eq!(tasks[1].line_number, 3);
    assert_eq!(tasks[1].status, TaskStatus::Icebox);
}

#[test]
fn fresh_ids_count_up_from_greatest() {
    let lines = strings(&["a", "b id:7", "c", "d id:3"]);
    let mut tasks = tasks_from_lines_on(&lines, "2026-06-20");
    assign_missing_ids(&mut tasks);
    let ids: Vec<u32> = tasks.iter().map(|t| t.id).collect();
    assert_eq!(ids, vec![8, 7, 9, 3]);
}

#[test]
fn ids_that_would_overflow_do_not_fit() {
    let lines = strings(&["a id:4294967295", "b"]);
    let tasks = tasks_from_lines_on(&lines, "2026-06-20");
    assert_eq!(tasks[0].id, u32::MAX);
    assert!(!ids_fit_for(&tasks));
}

#[test]
fn rewritten_line_reads_back_whole() {
    let t = DevTask {
        id: 42,
        priority: Some('B'),
        is_completed: true,
        completion_date: Some("2026-06-18".to_string()),
        creation_date: "2026-06-15".to_string(),
        description: "Write unit tests".to_string(),
        project: Some("Backend".to_string()),
        status: TaskStatus::Done,
        due_date: Some("2026-06-30".to_string()),
        parent_id: Some(7),
        line_number: 3,
    };
    let line = format_task(&t);
    assert_eq!(
        line,
        "x (B) 2026-06-18 2026-06-15 Write unit tests +Backend status:done due:2026-06-30 id:42 parent:7"
    );
    let back = parse_line_on(&line, 3, "1999-01-01").unwrap();
    assert_eq!(back, t);
}

#[test]
fn id_survives_rewrite_of_odd_task() {
    let t = DevTask {
        id: 9,
        priority: Some(' '),
        is_completed: true,
        completion_date: None,
        creation_date: String::new(),
        description: "id:5 status:done".to_string(),
        project: Some(String::new()),
        status: TaskStatus::Todo,
        due_date: Some("x id:6".to_string()),
        parent_id: None,
        line_number: 1,
    };
    let line = format_task_on(&t, "2026-01-01");
    let back = parse_line_on(&line, 1, "2026-01-02").unwrap();
    assert_eq!(back.id, 9);
}

#[test]
fn completed_task_without_date_is_written_with_today() {
    let mut t = task(1, TaskStatus::Done, 1);
    t.is_completed = true;
    let line = format_task_on(&t, "2026-07-01");
    assert_eq!(line, "x 2026-07-01 2026-06-17 Task 1 status:done id:1");
}

#[test]
fn empty_description_leaves_two_spaces() {
    let mut t = task(4, TaskStatus::Icebox, 1);
    t.description = String::new();
    assert_eq!(format_task(&t), "2026-06-17  status:icebox id:4");
}

#[test]
fn status_names_read_without_case() {
    assert_eq!(TaskStatus::from_str("TODO"), TaskStatus::Todo);
    assert_eq!(TaskStatus::from_str("Progress"), TaskStatus::Progress);
    assert_eq!(TaskStatus::from_str("done"), TaskStatus::Done);
    assert_eq!(TaskStatus::from_str("later"), TaskStatus::Icebox);
    assert_eq!(TaskStatus::from_str(""), TaskStatus::Icebox);
    assert_eq!(TaskStatus::from_lowercase("TODO"), TaskStatus::Icebox);
    for s in [TaskStatus::Icebox, TaskStatus::Todo, TaskStatus::Progress, TaskStatus::Done] {
        assert_eq!(TaskStatus::from_str(s.to_str()), s);
    }
    assert_eq!(TaskStatus::Progress.to_str(), "progress");
}

#[test]
fn status_tag_is_case_insensitive() {
    let t = parse_line_on("Ship it status:DONE", 1, "2026-06-20").unwrap();
    assert_eq!(t.status, TaskStatus::Done);
    let t = parse_line_on("Ship it status:todo status:progress", 1, "2026-06-20").unwrap();
    assert_eq!(t.status, TaskStatus::Progress);
}

#[test]
fn transition_target_must_name_a_column() {
    assert_eq!(parse_target_status("DONE"), Some(TaskStatus::Done));
    assert_eq!(parse_target_status("icebox"), Some(TaskStatus::Icebox));
    assert_eq!(parse_target_status("ToDo"), Some(TaskStatus::Todo));
    assert_eq!(parse_target_status("later"), None);
    assert_eq!(parse_target_status(""), None);
}

#[test]
fn ids_parse_like_u32() {
    let t = parse_line_on("a id:+7", 1, "2026-06-20").unwrap();
    assert_eq!(t.id, 7);
    let t = parse_line_on("a id:4294967296", 1, "2026-06-20").unwrap();
    assert_eq!(t.id, 0);
    assert_eq!(t.description, "a id:4294967296");
    let t = parse_line_on("a id:-1 parent:007", 1, "2026-06-20").unwrap();
    assert_eq!(t.id, 0);
    assert_eq!(t.parent_id, Some(7));
    assert_eq!(t.description, "a id:-1");
}

#[test]
fn unicode_whitespace_separates_words() {
    let t = parse_line_on("\u{3000}alpha\u{a0}+proj\tbeta\u{2003}", 1, "2026-06-20").unwrap();
    assert_eq!(t.description, "alpha beta");
    assert_eq!(t.project, Some("proj".to_string()));
    assert!(parse_line_on("\u{2028} \u{85}", 1, "2026-06-20").is_err());
    assert_eq!(parse_line_on("\t", 1, "2026-06-20").unwrap_err(), "Empty line");
}

#[test]
fn headers_need_their_exact_shape() {
    let t = parse_line_on("(é) abcd-ef-gh text", 1, "2026-06-20").unwrap();
    assert_eq!(t.priority, None);
    assert_eq!(t.creation_date, "2026-06-20");
    assert_eq!(t.description, "(é) abcd-ef-gh text");
    let t = parse_line_on("(a) (1) text", 1, "2026-06-20").unwrap();
    assert_eq!(t.priority, None);
    assert_eq!(t.description, "(a) (1) text");
    let t = parse_line_on("(Z) text", 1, "2026-06-20").unwrap();
    assert_eq!(t.priority, Some('Z'));
    let t = parse_line_on("x 2026-06-18 text", 1, "2026-06-20").unwrap();
    assert!(t.is_completed);
    assert_eq!(t.completion_date, Some("2026-06-18".to_string()));
    assert_eq!(t.creation_date, "2026-06-20");
    let t = parse_line_on("2026-06-18 (A) text", 1, "2026-06-20").unwrap();
    assert_eq!(t.priority, None);
    assert_eq!(t.creation_date, "2026-06-18");
    assert_eq!(t.description, "(A) text");
    let t = parse_line_on("+ due: text", 1, "2026-06-20").unwrap();
    assert_eq!(t.project, None);
    assert_eq!(t.due_date, Some(String::new()));
    assert_eq!(t.description, "+ text");
}

#[test]
fn parse_line_uses_the_clock_only_for_missing_dates() {
    let t = parse_line("2026-06-15 dated", 1).unwrap();
    assert_eq!(t.creation_date, "2026-06-15");
    assert_eq!(t.line_number, 1);
}

#[test]
fn transitions_keep_completion_consistent() {
    let mut tasks = vec![task(1, TaskStatus::Todo, 1), task(2, TaskStatus::Todo, 2)];
    assert!(transition_task_on(&mut tasks, 2, TaskStatus::Done, "2026-06-21"));
    assert!(tasks[1].is_completed);
    assert_eq!(tasks[1].completion_date, Some("2026-06-21".to_string()));
    assert!(transition_task_on(&mut tasks, 2, TaskStatus::Done, "2026-06-22"));
    assert_eq!(tasks[1].completion_date, Some("2026-06-21".to_string()));
    assert!(transition_task_on(&mut tasks, 2, TaskStatus::Progress, "2026-06-22"));
    assert!(!tasks[1].is_completed);
    assert_eq!(tasks[1].completion_date, None);
    assert_eq!(tasks[1].status, TaskStatus::Progress);
    assert!(!transition_task_on(&mut tasks, 3, TaskStatus::Done, "2026-06-22"));
    assert_eq!(tasks[0].status, TaskStatus::Todo);
}

#[test]
fn complete_dates_the_task_today() {
    let mut tasks = vec![task(5, TaskStatus::Progress, 1)];
    tasks[0].completion_date = Some("2020-01-01".to_string());
    assert!(complete_task_on(&mut tasks, 5, "2026-06-23"));
    assert_eq!(tasks[0].status, TaskStatus::Done);
    assert!(tasks[0].is_completed);
    assert_eq!(tasks[0].completion_date, Some("2026-06-23".to_string()));
    assert!(!complete_task_on(&mut tasks, 6, "2026-06-23"));
}

#[test]
fn remove_drops_every_task_with_the_id() {
    let mut tasks = vec![
        task(1, TaskStatus::Todo, 1),
        task(2, TaskStatus::Todo, 2),
        task(1, TaskStatus::Done, 3),
        task(3, TaskStatus::Todo, 4),
    ];
    assert!(remove_task(&mut tasks, 1));
    let ids: Vec<u32> = tasks.iter().map(|t| t.id).collect();
    assert_eq!(ids, vec![2, 3]);
    assert!(!remove_task(&mut tasks, 9));
    assert_eq!(tasks.len(), 2);
}

#[test]
fn add_takes_next_id_and_column() {
    let mut tasks = vec![task(4, TaskStatus::Todo, 1), task(9, TaskStatus::Todo, 2)];
    assert_eq!(max_task_id(&tasks), 9);
    add_task_on(&mut tasks, "New".to_string(), Some("P".to_string()), Some('C'), true, true, "2026-06-24");
    let t = &tasks[2];
    assert_eq!(t.id, 10);
    assert_eq!(t.status, TaskStatus::Progress);
    assert_eq!(t.line_number, 3);
    assert_eq!(t.creation_date, "2026-06-24");
    assert_eq!(t.project, Some("P".to_string()));
    assert_eq!(t.priority, Some('C'));
    assert!(!t.is_completed);
    add_task_on(&mut tasks, "Other".to_string(), None, None, true, false, "2026-06-24");
    assert_eq!(tasks[3].status, TaskStatus::Todo);
    assert_eq!(tasks[3].id, 11);
    let mut empty: Vec<DevTask> = Vec::new();
    add_task_on(&mut empty, "First".to_string(), None, None, false, false, "2026-06-24");
    assert_eq!(empty[0].id, 1);
    assert_eq!(empty[0].status, TaskStatus::Icebox);
}

#[test]
fn board_lists_columns_in_order() {
    let mut a = task(3, TaskStatus::Todo, 1);
    a.priority = Some('A');
    let tasks = vec![a, task(1, TaskStatus::Done, 2), task(2, TaskStatus::Todo, 3)];
    let lines = board_status_lines(&tasks);
    assert_eq!(
        lines,
        strings(&[
            "\n=== ICEBOX ===",
            "  (Empty)",
            "\n=== TODO ===",
            "  #3: (A) Task 3",
            "  #2: Task 2",
            "\n=== PROGRESS ===",
            "  (Empty)",
            "\n=== DONE ===",
            "  #1: Task 1",
        ])
    );
}

#[test]
fn status_changes_for_the_history() {
    let existing = vec![(1u32, "todo".to_string()), (2u32, "done".to_string())];
    let same = status_change(&existing, &task(1, TaskStatus::Todo, 1));
    assert!(same.is_none());
    let moved = status_change(&existing, &task(2, TaskStatus::Progress, 1)).unwrap();
    assert_eq!(moved.task_id, 2);
    assert_eq!(moved.from_status, Some("done".to_string()));
    assert_eq!(moved.to_status, "progress");
    let fresh = status_change(&existing, &task(3, TaskStatus::Icebox, 1)).unwrap();
    assert_eq!(fresh.from_status, None);
    assert_eq!(fresh.to_status, "icebox");
    let dup = vec![(4u32, "todo".to_string()), (4u32, "done".to_string())];
    assert!(status_change(&dup, &task(4, TaskStatus::Done, 1)).is_none());
}

#[test]
fn delete_statement_lists_current_ids() {
    assert_eq!(delete_stale_sql(&Vec::new()), "DELETE FROM tasks");
    let tasks = vec![task(1, TaskStatus::Todo, 1), task(20, TaskStatus::Todo, 2)];
    assert_eq!(delete_stale_sql(&tasks), "DELETE FROM tasks WHERE id NOT IN (1,20)");
}

#[test]
fn lookup_stops_at_marked_directory() {
    assert_eq!(lookup_step(true, false, true), LookupStep::Here);
    assert_eq!(lookup_step(false, true, false), LookupStep::Here);
    assert_eq!(lookup_step(false, false, true), LookupStep::Up);
    assert_eq!(lookup_step(false, false, false), LookupStep::Fallback);
}

#[test]
fn watcher_reloads_only_outside_edits() {
    assert!(should_reload(true, true, None));
    assert!(should_reload(true, true, Some(500)));
    assert!(!should_reload(true, true, Some(499)));
    assert!(!should_reload(true, true, Some(0)));
    assert!(!should_reload(false, true, None));
    assert!(!should_reload(true, false, None));
}

#[test]
fn watcher_collapses_a_burst_of_edits() {
    let edit = WatchEvent::FileEvent { is_modify: true, touches_todo: true, ms_since_own_write: None };
    let own = WatchEvent::FileEvent { is_modify: true, touches_todo: true, ms_since_own_write: Some(20) };
    assert_eq!(watch_step(false, own), (false, WatchAction::Ignore));
    assert_eq!(watch_step(false, edit), (true, WatchAction::ScheduleReload));
    assert_eq!(watch_step(true, edit), (true, WatchAction::Ignore));
    assert_eq!(watch_step(true, WatchEvent::ReloadStarted), (false, WatchAction::Reload));
    assert_eq!(watch_step(false, edit), (true, WatchAction::ScheduleReload));
}

#[test]
fn resync_and_reload_log_no_history() {
    let lines = strings(&["a status:todo", "b status:done id:4", "c due:2026-07-01 status:progress"]);
    let mut first = tasks_from_lines_on(&lines, "2026-06-20");
    assert!(assign_missing_ids(&mut first));
    let cache: Vec<(u32, String)> = first.iter().map(|t| (t.id, t.status.to_str().to_string())).collect();
    for t in &first {
        assert!(status_change(&cache, t).is_none());
    }
    let rewritten = render_lines_on(&first, "2026-06-20");
    let second = tasks_from_lines_on(&rewritten, "2026-06-21");
    for (a, b) in first.iter().zip(second.iter()) {
        assert_eq!(a.id, b.id);
        assert_eq!(a.status, b.status);
        assert!(status_change(&cache, b).is_none());
    }
}

#[test]
fn well_formed_line_is_written_back_unchanged() {
    let lines = [
        "x (A) 2026-06-18 2026-06-15 Write unit tests +Backend status:done due:2026-06-30 id:2 parent:1",
        "2026-06-17 Refactor DB layer +Backend status:icebox id:3 parent:1",
        "(C) 2026-06-17 Implement auth flow status:progress id:1",
    ];
    for (k, l) in lines.iter().enumerate() {
        let t = parse_line_on(l, k + 7, "1999-12-31").unwrap();
        assert_eq!(format_task_on(&t, "2000-01-01"), *l);
    }
}

#[test]
fn second_load_finds_ids_stable() {
    let lines = strings(&["first", "second id:5", "", "third"]);
    let mut first = tasks_from_lines_on(&lines, "2026-06-20");
    assert!(assign_missing_ids(&mut first));
    let rewritten = render_lines_on(&first, "2026-06-20");
    let mut second = tasks_from_lines_on(&rewritten, "2026-06-21");
    assert!(!assign_missing_ids(&mut second));
    let a: Vec<u32> = first.iter().map(|t| t.id).collect();
    let b: Vec<u32> = second.iter().map(|t| t.id).collect();
    assert_eq!(a, vec![6, 5, 7]);
    assert_eq!(a, b);
}
