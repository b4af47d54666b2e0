use flo::api::{failure_status, success_status, Endpoint};
use flo::model::Task;
use flo::notes::{editor_file, notes_from_editor};
use flo::plan::{plan_outdent, position_after_last, position_in, shifts_for_insert};
use flo::tui::{
    budget_just_expired, budget_state, clamp_selection, elapsed_minutes, format_time, half_page_down,
    half_page_up, restore_selection, select_down, select_up, staleness_for_days, BudgetState, PendingKey,
    Staleness, UndoHistory,
};
use flo::undo::{recreate_fixup, restoring_update, snapshot_task, UndoAction};
use flo::view::{breadcrumb, count_unfinished, is_listed, tone, tree_depths, tree_rows, visible_children, Tone};

fn task(id: &str, parent: Option<&str>, title: &str, position: i64) -> Task {
    Task {
        id: id.into(),
        parent_id: parent.map(|p| p.to_string()),
        title: title.into(),
        notes: String::new(),
        completed: false,
        position,
        created_at: String::new(),
        updated_at: String::new(),
        deferred: false,
        review_interval: 7,
        next_review_at: None,
        acknowledged: true,
        focused: false,
        focused_at: None,
        budget_minutes: None,
    }
}

#[test]
fn list_hides_done_deferred_and_filtered() {
    let mut done = task("b", None, "Done thing", 1);
    done.completed = true;
    let mut later = task("c", None, "Later", 2);
    later.deferred = true;
    let all = vec![task("a", None, "Buy MILK", 0), done, later, task("d", None, "call mom", 3)];
    let v = visible_children(&all, false, false, "");
    assert_eq!(v.iter().map(|t| t.id.as_str()).collect::<Vec<_>>(), vec!["a", "d"]);
    let v = visible_children(&all, true, true, "");
    assert_eq!(v.len(), 4);
    let v = visible_children(&all, true, true, "milk");
    assert_eq!(v.iter().map(|t| t.id.as_str()).collect::<Vec<_>>(), vec!["a"]);
    assert!(is_listed(&all[0], false, false, "Mil"));
    assert!(!is_listed(&all[0], false, false, "xyz"));
    assert!(is_listed(&task("e", None, "ÉCOLE", 0), false, false, "école"));
}

#[test]
fn tree_rows_have_depths() {
    let sub = vec![
        task("r", None, "root", 0),
        task("a", Some("r"), "a", 0),
        task("b", Some("r"), "b", 1),
        task("a1", Some("a"), "a1", 0),
    ];
    assert_eq!(tree_depths(&sub), vec![0, 1, 1, 2]);
    let mut hidden = sub.clone();
    hidden[1].completed = true;
    let rows = tree_rows(&hidden, false, false, "");
    let got: Vec<(&str, usize)> = rows.iter().map(|r| (r.task.id.as_str(), r.depth)).collect();
    assert_eq!(got, vec![("r", 0), ("b", 1), ("a1", 2)]);
    let orphan = vec![task("x", Some("gone"), "x", 0)];
    assert_eq!(tree_depths(&orphan), vec![0]);
}

#[test]
fn breadcrumbs() {
    assert_eq!(breadcrumb(&vec![]), "root");
    assert_eq!(breadcrumb(&vec!["Work".to_string(), "Alpha".to_string()]), "root > Work > Alpha");
}

#[test]
fn unfinished_counts_and_tones() {
    let mut done = task("b", None, "b", 0);
    done.completed = true;
    assert_eq!(count_unfinished(&vec![task("a", None, "a", 0), done]), 1);
    assert_eq!(tone(true, false, Some(Staleness::Tinted(1, 2, 3))), Tone::Done);
    assert_eq!(tone(false, false, None), Tone::Unacknowledged);
    assert_eq!(tone(false, true, Some(Staleness::Tinted(80, 80, 80))), Tone::Tinted(80, 80, 80));
    assert_eq!(tone(false, true, Some(Staleness::Fresh)), Tone::Plain);
    assert_eq!(tone(false, true, None), Tone::Plain);
}

#[test]
fn editor_round_trip() {
    let file = editor_file("Title", "line one\nline two");
    assert_eq!(file, "# Title\n# Lines starting with # are stripped on save.\n\nline one\nline two");
    assert_eq!(notes_from_editor(&file), "line one\nline two");
    assert_eq!(notes_from_editor("# only comments\n"), "");
    assert_eq!(notes_from_editor("a\r\n#x\r\nb\r\n\n"), "a\nb");
    assert_eq!(notes_from_editor("  keep  \n #not a comment"), "keep  \n #not a comment");
    assert_eq!(notes_from_editor("tail\r"), "tail");
    assert_eq!(notes_from_editor(""), "");
}

#[test]
fn insert_shifts_later_siblings() {
    let sibs = vec![task("a", None, "a", 0), task("n", None, "n", 3), task("b", None, "b", 1), task("c", None, "c", 2)];
    let shifts = shifts_for_insert(&sibs, "n", 1);
    let got: Vec<(&str, i64)> = shifts.iter().map(|r| (r.id.as_str(), r.position)).collect();
    assert_eq!(got, vec![("b", 2), ("c", 3)]);
}

#[test]
fn indent_and_outdent_positions() {
    assert_eq!(position_after_last(&vec![]), 0);
    assert_eq!(position_after_last(&vec![task("a", None, "a", 4), task("b", None, "b", 2)]), 5);
    let uncles = vec![task("p", None, "p", 1), task("q", None, "q", 2), task("o", None, "o", 0)];
    let plan = plan_outdent(&uncles, "p");
    assert_eq!(plan.parent_position, 1);
    assert_eq!(plan.position, 2);
    let got: Vec<(&str, i64)> = plan.shifts.iter().map(|r| (r.id.as_str(), r.position)).collect();
    assert_eq!(got, vec![("q", 3)]);
    let none = plan_outdent(&uncles, "zz");
    assert_eq!(none.parent_position, 0);
    assert_eq!(none.shifts.len(), 2);
    assert_eq!(position_in(&uncles, "q"), Some(1));
    assert_eq!(position_in(&uncles, "zz"), None);
}

#[test]
fn undo_steps() {
    let mut t = task("a", Some("p"), "title", 3);
    t.deferred = true;
    match snapshot_task(&t) {
        UndoAction::Update { id, title, position, parent_id, deferred, .. } => {
            assert_eq!(id, "a");
            assert_eq!(title, "title");
            assert_eq!(position, 3);
            assert_eq!(parent_id.as_deref(), Some("p"));
            assert!(deferred);
        }
        _ => panic!("expected an update"),
    }
    assert!(recreate_fixup(false, 3, &t).is_none());
    let fix = recreate_fixup(true, 3, &t).unwrap();
    assert_eq!(fix.completed, Some(true));
    assert_eq!(fix.position, Some(3));
    let u = restoring_update("t", "n", false, 1, &None, false);
    assert_eq!(u.parent_id.as_deref(), Some(""));
    let mut h: UndoHistory<u32> = UndoHistory::new();
    h.record(1);
    h.record(2);
    assert_eq!(h.take_undo(), Some(2));
    h.push_redo(2);
    assert_eq!(h.take_redo(), Some(2));
    h.record(3);
    assert_eq!(h.redo_len(), 0);
    assert_eq!(h.undo_len(), 2);
}

#[test]
fn selection_moves() {
    assert_eq!(select_up(Some(0), 3), Some(2));
    assert_eq!(select_up(Some(2), 3), Some(1));
    assert_eq!(select_up(None, 3), Some(0));
    assert_eq!(select_down(Some(2), 3), Some(0));
    assert_eq!(select_down(Some(0), 0), Some(0));
    assert_eq!(select_up(select_down(Some(1), 3), 3), Some(1));
    assert_eq!(select_down(select_up(Some(0), 3), 3), Some(0));
    assert_eq!(restore_selection(Some(4), Some(0), 5), Some(4));
    assert_eq!(restore_selection(None, Some(9), 5), Some(4));
    assert_eq!(restore_selection(None, None, 5), Some(0));
    assert_eq!(restore_selection(Some(1), Some(1), 0), None);
    assert_eq!(clamp_selection(Some(7), 3), Some(2));
    assert_eq!(half_page_down(2, 10, 5), 4);
    assert_eq!(half_page_down(2, 1, 5), 3);
    assert_eq!(half_page_up(2, 10), 0);
}

#[test]
fn staleness_budget_and_time() {
    assert_eq!(staleness_for_days(2, false), Staleness::Fresh);
    assert_eq!(staleness_for_days(3, false), Staleness::Tinted(160, 160, 160));
    assert_eq!(staleness_for_days(7, false), Staleness::Tinted(120, 120, 120));
    assert_eq!(staleness_for_days(14, false), Staleness::Tinted(80, 80, 80));
    assert_eq!(staleness_for_days(0, true), Staleness::Tinted(200, 150, 50));
    assert_eq!(budget_state(30, 5), Some(BudgetState::Plenty(25)));
    assert_eq!(budget_state(30, 25), Some(BudgetState::Low(5)));
    assert_eq!(budget_state(30, 40), Some(BudgetState::Over(10)));
    assert!(budget_just_expired(30, 30));
    assert!(budget_just_expired(30, 31));
    assert!(!budget_just_expired(30, 32));
    assert_eq!(elapsed_minutes(125_000, 0), 2);
    assert_eq!(elapsed_minutes(0, 125_000), -2);
    assert_eq!(format_time("2024-05-01T10:00:00+00:00"), "2024-05-01T10:00");
    assert_eq!(format_time("short"), "short");
    assert_eq!(PendingKey::G.label(), Some("g"));
    assert_eq!(PendingKey::Idle.label(), None);
}

#[test]
fn budget_alert_names_last_expired_task() {
    let at = "2024-05-01T10:00:00+00:00";
    let start = 1_714_557_600_000i64;
    let mut a = task("a", None, "first", 0);
    a.focused = true;
    a.focused_at = Some(at.into());
    a.budget_minutes = Some(30);
    let mut b = a.clone();
    b.id = "b".into();
    b.title = "second".into();
    b.budget_minutes = Some(31);
    let mut c = a.clone();
    c.id = "c".into();
    c.title = "no budget".into();
    c.budget_minutes = None;
    let focused = vec![a, b, c];
    assert_eq!(flo::tui::budget_alert(&focused, start + 30 * 60_000), Some("first".to_string()));
    assert_eq!(flo::tui::budget_alert(&focused, start + 31 * 60_000), Some("second".to_string()));
    assert_eq!(flo::tui::budget_alert(&focused, start + 33 * 60_000), None);
    assert_eq!(flo::tui::budget_alert(&focused, start), None);
}

#[test]
fn api_statuses() {
    assert_eq!(success_status(Endpoint::CreateTask), 201);
    assert_eq!(success_status(Endpoint::DeleteTask), 204);
    assert_eq!(success_status(Endpoint::Home), 200);
    assert_eq!(failure_status(Endpoint::GetTask), 404);
    assert_eq!(failure_status(Endpoint::Focus), 400);
    assert_eq!(failure_status(Endpoint::UpdateTask), 500);
}

#[test]
fn position_mark_counts_from_one() {
    assert_eq!(flo::tui::position_mark(Some(0), 3), flo::tui::PositionMark::At(1, 3));
    assert_eq!(flo::tui::position_mark(None, 0), flo::tui::PositionMark::Empty);
    assert_eq!(flo::tui::position_mark(None, 4), flo::tui::PositionMark::Unselected(4));
}

#[test]
fn help_window_holds_the_scroll_to_the_text() {
    let w = flo::tui::help_window(50, 40, 30);
    assert_eq!(w.scroll, 10);
    assert_eq!(w.place, Some((11, 11)));
    let w = flo::tui::help_window(5, 20, 30);
    assert_eq!(w.scroll, 0);
    assert_eq!(w.place, None);
}

#[test]
fn status_line_prefers_pending_then_filter_then_message() {
    assert_eq!(flo::tui::normal_status(PendingKey::G, "x", Some("m"), false), flo::tui::StatusLine::Pending);
    assert_eq!(flo::tui::normal_status(PendingKey::Idle, "x", Some("m"), false), flo::tui::StatusLine::Filter);
    assert_eq!(flo::tui::normal_status(PendingKey::Idle, "", Some("BUDGET EXPIRED: t"), false), flo::tui::StatusLine::Message { alarm: true });
    assert_eq!(flo::tui::normal_status(PendingKey::Idle, "", Some("Saved"), false), flo::tui::StatusLine::Message { alarm: false });
    assert_eq!(flo::tui::normal_status(PendingKey::Idle, "", Some("Saved"), true), flo::tui::StatusLine::Message { alarm: true });
    assert_eq!(flo::tui::normal_status(PendingKey::Idle, "", None, false), flo::tui::StatusLine::Hints);
}
