use flo::keys::{decode_normal_key, edit_field, KeyCode, KeyPress, NormalAction};
use flo::model::{CreateTask, UpdateTask};
use flo::store::TaskStore;
use flo::text_input::TextInput;
use flo::tui::PendingKey;

const T0: &str = "2024-05-01T10:00:00+00:00";
const S0: i64 = 1_714_557_600;

fn new_store_with(ids: &[(&str, Option<&str>)]) -> TaskStore {
    let mut s = TaskStore::new();
    for (id, parent) in ids {
        s.create_task_at(
            &CreateTask { parent_id: parent.map(|p| p.to_string()), title: id.to_string(), notes: String::new() },
            id.to_string(),
            T0.to_string(),
        )
        .unwrap();
    }
    s
}

#[test]
fn read_after_create_and_update() {
    let mut s = new_store_with(&[("A", None)]);
    let mut u = UpdateTask::empty();
    u.title = Some("renamed".into());
    let t = s.update_task_at("A", &u, "2024-05-02T00:00:00+00:00".into()).unwrap();
    let back = s.get_task("A").unwrap();
    assert_eq!(back.title, t.title);
    assert_eq!(back.updated_at, t.updated_at);
    assert_eq!(back.created_at, T0);
}

#[test]
fn new_child_goes_last_and_first_child_at_zero() {
    let mut s = new_store_with(&[("P", None), ("A", Some("P")), ("B", Some("P"))]);
    let c = s
        .create_task_at(
            &CreateTask { parent_id: Some("P".into()), title: "c".into(), notes: String::new() },
            "C".into(),
            T0.into(),
        )
        .unwrap();
    for t in s.get_children(Some("P")) {
        if t.id != "C" {
            assert!(t.position < c.position);
        }
    }
    let first = s
        .create_task_at(
            &CreateTask { parent_id: Some("C".into()), title: "d".into(), notes: String::new() },
            "D".into(),
            T0.into(),
        )
        .unwrap();
    assert_eq!(first.position, 0);
}

#[test]
fn delete_takes_exactly_the_subtree() {
    let mut s = new_store_with(&[("R", None), ("M", Some("R")), ("L", Some("M")), ("S", Some("R")), ("O", None)]);
    s.delete_task("M");
    let left: Vec<String> = s.all_tasks().iter().map(|t| t.id.clone()).collect();
    assert_eq!(left, vec!["R", "S", "O"]);
    s.delete_task("missing");
    assert_eq!(s.all_tasks().len(), 3);
}

#[test]
fn defer_and_focus_toggle_back() {
    let mut s = new_store_with(&[("A", None)]);
    s.snooze_review_at("A", S0, 0).unwrap();
    s.defer_task_at("A", S0, 0).unwrap();
    let back = s.defer_task_at("A", S0, 0).unwrap();
    assert!(!back.deferred);
    assert_eq!(back.review_interval, 7);
    assert!(back.next_review_at.is_none());
    s.focus_task_at("A", Some(10), T0.into()).unwrap();
    let off = s.focus_task_at("A", None, T0.into()).unwrap();
    assert!(!off.focused);
    assert!(off.focused_at.is_none());
    assert!(off.budget_minutes.is_none());
}

#[test]
fn type_then_backspace_restores_field() {
    let mut f = TextInput::new("abc".to_string());
    edit_field(&mut f, KeyPress { code: KeyCode::Left, ctrl: false });
    edit_field(&mut f, KeyPress { code: KeyCode::Char('Z'), ctrl: false });
    assert_eq!(f.as_str(), "abZc");
    edit_field(&mut f, KeyPress { code: KeyCode::Backspace, ctrl: false });
    assert_eq!(f.as_str(), "abc");
    assert_eq!(f.cursor(), 2);
    edit_field(&mut f, KeyPress { code: KeyCode::Home, ctrl: false });
    edit_field(&mut f, KeyPress { code: KeyCode::End, ctrl: false });
    assert_eq!(f.cursor(), 3);
    assert_eq!(f.as_str(), "abc");
}

#[test]
fn broken_sequence_acts_as_plain_key() {
    for (p, c) in [(PendingKey::D, 'x'), (PendingKey::Y, 'j'), (PendingKey::Lt, '>')] {
        let key = KeyPress { code: KeyCode::Char(c), ctrl: false };
        assert_eq!(decode_normal_key(p, false, key), decode_normal_key(PendingKey::Idle, false, key));
    }
    let q = KeyPress { code: KeyCode::Char('q'), ctrl: false };
    assert_eq!(decode_normal_key(PendingKey::G, true, q).action, NormalAction::Quit);
}

#[test]
fn a_move_below_itself_is_refused_and_the_tree_stays() {
    let mut s = new_store_with(&[("A", None), ("B", Some("A")), ("C", Some("B"))]);
    let mut u = UpdateTask::empty();
    u.parent_id = Some("C".into());
    assert_eq!(s.update_task_at("A", &u, T0.into()).unwrap_err(), flo::store::StoreError::WouldCycle);
    u.parent_id = Some("A".into());
    assert_eq!(s.update_task_at("A", &u, T0.into()).unwrap_err(), flo::store::StoreError::WouldCycle);
    assert_eq!(s.get_task("A").unwrap().parent_id, None);
    assert_eq!(s.get_task("C").unwrap().parent_id.as_deref(), Some("B"));
}

fn restore_from(a: &flo::undo::UndoAction) -> UpdateTask {
    match a {
        flo::undo::UndoAction::Update { title, notes, completed, position, parent_id, deferred, .. } => {
            flo::undo::restoring_update(title, notes, *completed, *position, parent_id, *deferred)
        }
        _ => panic!("not an update step"),
    }
}

#[test]
fn undo_then_redo_of_an_edit_gives_the_state_back() {
    let mut s = new_store_with(&[("P", None), ("A", None)]);
    let before = s.get_task("A").unwrap();
    let undo = flo::undo::snapshot_task(&before);
    let mut u = UpdateTask::empty();
    u.title = Some("renamed".into());
    u.completed = Some(true);
    u.parent_id = Some("P".into());
    s.update_task_at("A", &u, "2024-05-02T00:00:00+00:00".into()).unwrap();
    let edited = s.get_task("A").unwrap();
    let redo = flo::undo::snapshot_task(&edited);
    let back = s.update_task_at("A", &restore_from(&undo), "2024-05-03T00:00:00+00:00".into()).unwrap();
    assert_eq!((back.title.as_str(), back.completed, back.parent_id.clone(), back.position), ("A", false, None, before.position));
    let again = s.update_task_at("A", &restore_from(&redo), "2024-05-04T00:00:00+00:00".into()).unwrap();
    assert_eq!((again.title.as_str(), again.completed, again.parent_id.as_deref()), ("renamed", true, Some("P")));
}

#[test]
fn undo_of_a_delete_recreates_the_task() {
    let mut s = new_store_with(&[("P", None), ("X", Some("P")), ("A", Some("P"))]);
    let mut u = UpdateTask::empty();
    u.completed = Some(true);
    s.update_task_at("A", &u, T0.into()).unwrap();
    let gone = s.get_task("A").unwrap();
    let step = flo::undo::recreation_of(&gone);
    s.delete_task("A");
    s.delete_task("X");
    if let flo::undo::UndoAction::Create { parent_id, title, notes, completed, position } = step {
        let req = flo::undo::recreate_request(&parent_id, &title, &notes);
        let created = s.create_task_at(&req, "A2".into(), T0.into()).unwrap();
        let back = match flo::undo::recreate_fixup(completed, position, &created) {
            Some(fix) => s.update_task_at("A2", &fix, T0.into()).unwrap(),
            None => created,
        };
        assert_eq!(back.parent_id.as_deref(), Some("P"));
        assert_eq!(back.title, "A");
        assert!(back.completed);
        assert_eq!(back.position, gone.position);
    } else {
        panic!("not a create step");
    }
}
