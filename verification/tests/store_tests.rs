use flo::model::{CreateSample, CreateTask, Sample, Task, UpdateTask};
use flo::store::{StoreError, TaskStore};
use flo::tui::{staleness, Staleness};

fn add_at(store: &mut TaskStore, parent: Option<&str>, title: &str, id: &str, now: &str) -> Task {
    store
        .create_task_at(
            &CreateTask { parent_id: parent.map(|p| p.to_string()), title: title.to_string(), notes: String::new() },
            id.to_string(),
            now.to_string(),
        )
        .unwrap()
}

const T0: &str = "2024-05-01T10:00:00+00:00";
const MS0: i64 = 1_714_557_600_000; // 2024-05-01T10:00:00Z
const DAY: i64 = 86_400_000;
const S0: i64 = 1_714_557_600; // 2024-05-01T10:00:00Z
const SECS_DAY: i64 = 86_400;

#[test]
fn created_task_defaults() {
    let mut store = TaskStore::new();
    let t = add_at(&mut store, None, "t", "A1", T0);
    assert_eq!(t.id, "A1");
    assert_eq!(t.created_at, T0);
    assert_eq!(t.updated_at, T0);
    assert_eq!(t.position, 0);
    assert!(!t.deferred && !t.focused && !t.acknowledged && !t.completed);
    assert_eq!(t.review_interval, 7);
    assert!(t.next_review_at.is_none());
}

#[test]
fn duplicate_id_is_refused() {
    let mut store = TaskStore::new();
    add_at(&mut store, None, "t", "A1", T0);
    let r = store.create_task_at(
        &CreateTask { parent_id: None, title: "u".into(), notes: String::new() },
        "A1".into(),
        T0.into(),
    );
    assert_eq!(r.unwrap_err(), StoreError::DuplicateId);
}

#[test]
fn missing_parent_is_refused() {
    let mut store = TaskStore::new();
    let r = store.create_task_at(
        &CreateTask { parent_id: Some("nope".into()), title: "u".into(), notes: String::new() },
        "A1".into(),
        T0.into(),
    );
    assert_eq!(r.unwrap_err(), StoreError::ParentNotFound);
    assert!(store.all_tasks().is_empty());
}

#[test]
fn position_after_greatest_sibling() {
    let mut store = TaskStore::new();
    let a = add_at(&mut store, None, "a", "A", T0);
    let mut u = UpdateTask::empty();
    u.position = Some(41);
    store.update_task_at(&a.id, &u, T0.to_string()).unwrap();
    let b = add_at(&mut store, None, "b", "B", T0);
    assert_eq!(b.position, 42);
}

#[test]
fn position_overflow_is_refused() {
    let mut store = TaskStore::new();
    let a = add_at(&mut store, None, "a", "A", T0);
    let mut u = UpdateTask::empty();
    u.position = Some(i64::MAX);
    store.update_task_at(&a.id, &u, T0.to_string()).unwrap();
    let r = store.create_task_at(
        &CreateTask { parent_id: None, title: "b".into(), notes: String::new() },
        "B".into(),
        T0.into(),
    );
    assert_eq!(r.unwrap_err(), StoreError::PositionOverflow);
}

#[test]
fn defer_sets_review_one_interval_later() {
    let mut store = TaskStore::new();
    add_at(&mut store, None, "t", "A", T0);
    let d = store.defer_task_at("A", S0, 0).unwrap();
    assert!(d.deferred);
    assert_eq!(d.next_review_at.as_deref(), Some("2024-05-08T10:00:00+00:00"));
    assert_eq!(d.updated_at, T0);
    let back = store.defer_task_at("A", S0 + SECS_DAY, 0).unwrap();
    assert!(!back.deferred);
    assert_eq!(back.review_interval, 7);
    assert!(back.next_review_at.is_none());
    assert_eq!(back.updated_at, "2024-05-02T10:00:00+00:00");
}

#[test]
fn defer_missing_task_fails() {
    let mut store = TaskStore::new();
    assert_eq!(store.defer_task_at("nope", S0, 0).unwrap_err(), StoreError::NotFound);
}

#[test]
fn snooze_doubles_interval_up_to_90_days() {
    let mut store = TaskStore::new();
    add_at(&mut store, None, "t", "A", T0);
    store.defer_task_at("A", S0, 0).unwrap();
    let mut seen = Vec::new();
    for _ in 0..5 {
        seen.push(store.snooze_review_at("A", S0, 0).unwrap().review_interval);
    }
    assert_eq!(seen, vec![14, 28, 56, 90, 90]);
    let t = store.get_task("A").unwrap();
    assert_eq!(t.next_review_at.as_deref(), Some("2024-07-30T10:00:00+00:00"));
}

#[test]
fn review_lists_only_due_deferred_tasks() {
    let mut store = TaskStore::new();
    add_at(&mut store, None, "due", "A", T0);
    add_at(&mut store, None, "later", "B", T0);
    add_at(&mut store, None, "active", "C", T0);
    store.defer_task_at("A", S0 - 10 * SECS_DAY, 0).unwrap();
    store.defer_task_at("B", S0, 0).unwrap();
    let due = store.get_review_tasks_at(T0);
    assert_eq!(due.len(), 1);
    assert_eq!(due[0].id, "A");
}

#[test]
fn focus_limit_is_three() {
    let mut store = TaskStore::new();
    for id in ["A", "B", "C", "D"] {
        add_at(&mut store, None, id, id, T0);
    }
    for id in ["A", "B", "C"] {
        assert!(store.focus_task_at(id, None, T0.to_string()).unwrap().focused);
    }
    assert_eq!(store.focus_task_at("D", Some(25), T0.to_string()).unwrap_err(), StoreError::FocusLimit);
    assert_eq!(store.focused_count(), 3);
    let off = store.focus_task_at("A", None, T0.to_string()).unwrap();
    assert!(!off.focused);
    assert!(off.focused_at.is_none());
    let on = store.focus_task_at("D", Some(25), "2024-05-01T11:00:00+00:00".to_string()).unwrap();
    assert!(on.focused);
    assert_eq!(on.budget_minutes, Some(25));
    assert_eq!(on.focused_at.as_deref(), Some("2024-05-01T11:00:00+00:00"));
    assert_eq!(store.get_focused_tasks().len(), 3);
}

#[test]
fn acknowledge_marks_task() {
    let mut store = TaskStore::new();
    add_at(&mut store, None, "t", "A", T0);
    let t = store.acknowledge_task_at("A", "2024-05-01T12:00:00+00:00".to_string()).unwrap();
    assert!(t.acknowledged);
    assert_eq!(t.updated_at, "2024-05-01T12:00:00+00:00");
}

#[test]
fn touch_logs_sample_with_title() {
    let mut store = TaskStore::new();
    add_at(&mut store, None, "write report", "A", T0);
    let t = store.touch_task_at("A", None, "S1".to_string(), "2024-05-01T12:00:00+00:00".to_string()).unwrap();
    assert_eq!(t.updated_at, "2024-05-01T12:00:00+00:00");
    let samples = store.all_samples();
    assert_eq!(samples.len(), 1);
    assert_eq!(samples[0].prompt_type, "touch");
    assert_eq!(samples[0].response, "write report");
    assert_eq!(samples[0].task_id.as_deref(), Some("A"));
    store.touch_task_at("A", Some("halfway"), "S2".to_string(), T0.to_string()).unwrap();
    assert_eq!(store.all_samples()[1].response, "halfway");
}

#[test]
fn samples_on_a_day_with_task_titles() {
    let mut store = TaskStore::new();
    add_at(&mut store, None, "write report", "A", T0);
    store
        .create_sample_at(
            &CreateSample { response: "later".into(), prompt_type: "ping".into(), task_id: None },
            "S2".into(),
            "2024-05-01T15:00:00+00:00".into(),
        )
        .unwrap();
    store
        .create_sample_at(
            &CreateSample { response: "r".into(), prompt_type: "touch".into(), task_id: Some("A".into()) },
            "S1".into(),
            "2024-05-01T09:00:00+00:00".into(),
        )
        .unwrap();
    store
        .create_sample_at(
            &CreateSample { response: "x".into(), prompt_type: "ping".into(), task_id: None },
            "S3".into(),
            "2024-05-02T09:00:00+00:00".into(),
        )
        .unwrap();
    let day = store.get_samples_on("2024-05-01");
    assert_eq!(day.len(), 2);
    assert_eq!(day[0].id, "S1");
    assert_eq!(day[1].id, "S2");
    let joined = store.get_samples_on_with_tasks("2024-05-01");
    assert_eq!(joined[0].task_title.as_deref(), Some("write report"));
    assert!(joined[1].task_title.is_none());
}

fn row(id: &str, parent: Option<&str>, title: &str) -> Task {
    Task {
        id: id.into(),
        parent_id: parent.map(|p| p.to_string()),
        title: title.into(),
        notes: String::new(),
        completed: false,
        position: 0,
        created_at: T0.into(),
        updated_at: T0.into(),
        deferred: false,
        review_interval: 7,
        next_review_at: None,
        acknowledged: true,
        focused: false,
        focused_at: None,
        budget_minutes: None,
    }
}

#[test]
fn load_accepts_rows_in_any_order() {
    let rows = vec![row("C", Some("B"), "c"), row("B", Some("A"), "b"), row("A", None, "a")];
    let samples = vec![Sample {
        id: "S".into(),
        prompt_type: "touch".into(),
        response: "c".into(),
        created_at: T0.into(),
        task_id: Some("C".into()),
    }];
    let store = TaskStore::load(rows, &samples).unwrap();
    assert_eq!(store.all_tasks().len(), 3);
    assert_eq!(store.get_ancestors("C").len(), 3);
    assert_eq!(store.all_samples().len(), 1);
}

#[test]
fn load_refuses_orphans_and_cycles() {
    let orphan = vec![row("B", Some("X"), "b")];
    assert_eq!(TaskStore::load(orphan, &vec![]).err(), Some(StoreError::ParentNotFound));
    let cycle = vec![row("A", Some("B"), "a"), row("B", Some("A"), "b")];
    assert_eq!(TaskStore::load(cycle, &vec![]).err(), Some(StoreError::ParentNotFound));
}

#[test]
fn load_refuses_bad_records() {
    let mut bad = row("A", None, "a");
    bad.review_interval = 3;
    assert_eq!(TaskStore::load(vec![bad], &vec![]).err(), Some(StoreError::InvalidRecord));
    let dup = vec![row("A", None, "a"), row("A", None, "b")];
    assert_eq!(TaskStore::load(dup, &vec![]).err(), Some(StoreError::DuplicateId));
    let mut focused = Vec::new();
    for id in ["A", "B", "C", "D"] {
        let mut t = row(id, None, id);
        t.focused = true;
        focused.push(t);
    }
    assert_eq!(TaskStore::load(focused, &vec![]).err(), Some(StoreError::FocusLimit));
}

#[test]
fn staleness_reads_the_timestamp() {
    let now = MS0 + 5 * DAY;
    assert_eq!(staleness(T0, false, now), Some(Staleness::Tinted(160, 160, 160)));
    assert_eq!(staleness(T0, false, MS0), Some(Staleness::Fresh));
    assert_eq!(staleness("not a time", false, now), None);
}

#[test]
fn defer_writes_nanoseconds() {
    let mut store = TaskStore::new();
    add_at(&mut store, None, "t", "A", T0);
    let d = store.defer_task_at("A", S0, 123_456_789).unwrap();
    assert_eq!(d.updated_at, "2024-05-01T10:00:00.123456789+00:00");
    assert_eq!(d.next_review_at.as_deref(), Some("2024-05-08T10:00:00.123456789+00:00"));
}

#[test]
fn adding_a_child_refreshes_the_parent() {
    let mut store = TaskStore::new();
    add_at(&mut store, None, "parent", "P", T0);
    add_at(&mut store, Some("P"), "child", "C", "2024-05-02T10:00:00+00:00");
    let p = store.get_task("P").unwrap();
    assert_eq!(p.updated_at, "2024-05-02T10:00:00+00:00");
    assert_eq!(p.created_at, T0);
    assert_eq!(p.title, "parent");
}

#[test]
fn focus_keeps_updated_at() {
    let mut store = TaskStore::new();
    add_at(&mut store, None, "t", "A", T0);
    let on = store.focus_task_at("A", Some(25), "2024-05-03T10:00:00+00:00".to_string()).unwrap();
    assert_eq!(on.updated_at, T0);
    assert_eq!(on.focused_at.as_deref(), Some("2024-05-03T10:00:00+00:00"));
    let off = store.focus_task_at("A", None, "2024-05-04T10:00:00+00:00".to_string()).unwrap();
    assert_eq!(off.updated_at, T0);
}

#[test]
fn ancestors_are_root_first_after_a_move_under_a_newer_task() {
    let mut store = TaskStore::new();
    add_at(&mut store, None, "leaf", "L", "2024-05-01T10:00:00+00:00");
    add_at(&mut store, None, "mid", "M", "2024-05-02T10:00:00+00:00");
    add_at(&mut store, None, "root", "R", "2024-05-03T10:00:00+00:00");
    let mut u = UpdateTask::empty();
    u.parent_id = Some("R".to_string());
    store.update_task_at("M", &u, T0.to_string()).unwrap();
    u.parent_id = Some("M".to_string());
    store.update_task_at("L", &u, T0.to_string()).unwrap();
    let chain: Vec<String> = store.get_ancestors("L").into_iter().map(|t| t.id).collect();
    assert_eq!(chain, vec!["R", "M", "L"]);
    assert!(store.get_ancestors("nope").is_empty());
    let hits = store.search_tasks("leaf");
    assert_eq!(hits.len(), 1);
    assert_eq!(hits[0].path, vec!["root".to_string(), "mid".to_string()]);
}

#[test]
fn created_times_are_full_timestamps() {
    let mut store = TaskStore::new();
    let x = store
        .create_sample(&CreateSample { response: "working on flo".into(), prompt_type: "activity".into(), task_id: None })
        .unwrap();
    assert!(x.created_at.len() >= 25);
    assert!(!x.id.is_empty());
}
