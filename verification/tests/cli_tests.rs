use flo::cli::{
    child_slot, cursor_from_contents, cursor_path, data_dir, database_path, elapsed_parts, indent_slots,
    join_path, mirror_tag, parse_review_answer, pick_target, pid_path, status_mark, status_suffix,
    total_pending, tree_mark, CliError, Elapsed, ReviewAnswer,
};
use flo::model::{ProjectPreview, Task};

fn task(id: &str) -> Task {
    Task {
        id: id.into(),
        parent_id: None,
        title: id.into(),
        notes: String::new(),
        completed: false,
        position: 0,
        created_at: String::new(),
        updated_at: String::new(),
        deferred: false,
        review_interval: 7,
        next_review_at: None,
        acknowledged: true,
        focused: false,
        focused_at: None,
        budget_minutes: None,
    }
}

#[test]
fn child_index_is_one_based() {
    assert_eq!(child_slot(1, 3), Ok(0));
    assert_eq!(child_slot(3, 3), Ok(2));
    assert_eq!(child_slot(0, 3), Err(CliError::InvalidIndex { index: 0, count: 3 }));
    assert_eq!(child_slot(4, 3), Err(CliError::InvalidIndex { index: 4, count: 3 }));
    assert_eq!(child_slot(1, 0), Err(CliError::InvalidIndex { index: 1, count: 0 }));
}

#[test]
fn indent_defaults_to_sibling_above() {
    assert_eq!(indent_slots(2, None, 3), Ok((1, 0)));
    assert_eq!(indent_slots(1, Some(3), 3), Ok((0, 2)));
    assert_eq!(indent_slots(1, None, 3), Err(CliError::NoSiblingAbove));
    assert_eq!(indent_slots(2, Some(2), 3), Err(CliError::IndentUnderSelf));
    assert_eq!(indent_slots(2, Some(5), 3), Err(CliError::InvalidTarget { index: 5, count: 3 }));
    assert_eq!(indent_slots(2, Some(0), 3), Err(CliError::InvalidTarget { index: 0, count: 3 }));
    assert_eq!(indent_slots(9, None, 3), Err(CliError::InvalidIndex { index: 9, count: 3 }));
}

#[test]
fn target_is_frame_or_child() {
    let children = vec![task("a"), task("b")];
    assert_eq!(pick_target(None, &Some("cur".into()), &children), Ok("cur".to_string()));
    assert_eq!(pick_target(None, &None, &children), Err(CliError::AtRoot));
    assert_eq!(pick_target(Some(2), &None, &children), Ok("b".to_string()));
    assert_eq!(pick_target(Some(3), &Some("cur".into()), &children), Err(CliError::InvalidIndex { index: 3, count: 2 }));
}

#[test]
fn cursor_file_is_trimmed() {
    assert_eq!(cursor_from_contents("  01ABC \n"), Some("01ABC".to_string()));
    assert_eq!(cursor_from_contents(" \n\t"), None);
    assert_eq!(cursor_from_contents(""), None);
    assert_eq!(cursor_from_contents("\u{a0}id\u{3000}"), Some("id".to_string()));
}

#[test]
fn review_answers() {
    assert_eq!(parse_review_answer("k\n"), ReviewAnswer::Keep);
    assert_eq!(parse_review_answer(" keep "), ReviewAnswer::Keep);
    assert_eq!(parse_review_answer("s"), ReviewAnswer::Snooze);
    assert_eq!(parse_review_answer("snooze\n"), ReviewAnswer::Snooze);
    assert_eq!(parse_review_answer("d"), ReviewAnswer::Done);
    assert_eq!(parse_review_answer("done"), ReviewAnswer::Done);
    assert_eq!(parse_review_answer("q"), ReviewAnswer::Quit);
    assert_eq!(parse_review_answer("quit\r\n"), ReviewAnswer::Quit);
    assert_eq!(parse_review_answer("K"), ReviewAnswer::Skip);
    assert_eq!(parse_review_answer(""), ReviewAnswer::Skip);
    assert_eq!(parse_review_answer("keeps"), ReviewAnswer::Skip);
}

#[test]
fn status_marks_and_tags() {
    let mut t = task("a");
    assert_eq!(status_mark(&t), " ");
    assert_eq!(status_suffix(&t), "");
    t.acknowledged = false;
    assert_eq!(status_mark(&t), "?");
    t.completed = true;
    assert_eq!(status_mark(&t), "x");
    t.focused = true;
    assert_eq!(status_suffix(&t), " [F]");
    t.deferred = true;
    assert_eq!(status_suffix(&t), " [F] [zzz]");
    t.focused = false;
    assert_eq!(status_suffix(&t), " [zzz]");
    assert_eq!(tree_mark(true), "x");
    assert_eq!(tree_mark(false), " ");
}

#[test]
fn mirror_tags() {
    assert_eq!(mirror_tag("ping"), "ping");
    assert_eq!(mirror_tag("activity"), " log");
    assert_eq!(mirror_tag("touch"), "touch");
    assert_eq!(mirror_tag("other"), "other");
}

#[test]
fn elapsed_display() {
    assert_eq!(elapsed_parts(0), Elapsed::Minutes(0));
    assert_eq!(elapsed_parts(59), Elapsed::Minutes(59));
    assert_eq!(elapsed_parts(60), Elapsed::HoursMinutes(1, 0));
    assert_eq!(elapsed_parts(135), Elapsed::HoursMinutes(2, 15));
    assert_eq!(elapsed_parts(-5), Elapsed::Minutes(-5));
}

#[test]
fn home_total_pending() {
    let p = |n: i64| ProjectPreview { id: "p".into(), title: "p".into(), pending_count: n, next_actions: vec![] };
    assert_eq!(total_pending(&vec![]), 0);
    assert_eq!(total_pending(&vec![p(2), p(0), p(5)]), 7);
}

#[test]
fn data_files_under_home() {
    assert_eq!(data_dir("/home/u"), "/home/u/.flo");
    assert_eq!(data_dir("/home/u/"), "/home/u/.flo");
    assert_eq!(cursor_path("/home/u"), "/home/u/.flo/cursor");
    assert_eq!(pid_path("/home/u"), "/home/u/.flo/server.pid");
    assert_eq!(database_path("/root"), "/root/.flo/flo.db");
    assert_eq!(join_path("", "x"), "x");
}

#[test]
fn version_joins_package_and_build() {
    assert_eq!(flo::version("abc123"), format!("{}-{}", flo::PKG_VERSION, "abc123"));
    assert_eq!(flo::version("dev"), "0.1.0-dev");
}
