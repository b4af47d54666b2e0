use flo::keys::{
    clicked_row, confirms_delete, decode_normal_key, edit_field, field_action, help_action, search_action,
    search_next, search_previous, search_wanted, help_scroll_after, scrolled, field_step, AddKind, FieldMode, FieldStep, FieldAction, HelpAction, KeyCode, KeyPress, NormalAction,
    SearchAction,
};
use flo::text_input::TextInput;
use flo::tui::PendingKey;

fn k(c: char) -> KeyPress {
    KeyPress { code: KeyCode::Char(c), ctrl: false }
}

fn ctrl(c: char) -> KeyPress {
    KeyPress { code: KeyCode::Char(c), ctrl: true }
}

fn key(code: KeyCode) -> KeyPress {
    KeyPress { code, ctrl: false }
}

#[test]
fn q_twice_quits() {
    let first = decode_normal_key(PendingKey::Idle, false, k('q'));
    assert_eq!(first.action, NormalAction::AskQuit);
    assert!(first.quit_pending);
    let second = decode_normal_key(first.pending, first.quit_pending, k('q'));
    assert_eq!(second.action, NormalAction::Quit);
}

#[test]
fn other_key_cancels_quit() {
    let s = decode_normal_key(PendingKey::Idle, true, k('j'));
    assert!(!s.quit_pending);
    assert!(s.clear_status);
    assert_eq!(s.action, NormalAction::MoveDown);
}

#[test]
fn ctrl_c_quits_at_once() {
    assert_eq!(decode_normal_key(PendingKey::Idle, false, ctrl('c')).action, NormalAction::Quit);
    assert_eq!(decode_normal_key(PendingKey::Idle, false, k('c')).action, NormalAction::ToggleCompleted);
}

#[test]
fn two_key_sequences() {
    let g = decode_normal_key(PendingKey::Idle, false, k('g'));
    assert_eq!(g.pending, PendingKey::G);
    assert_eq!(g.action, NormalAction::Nothing);
    assert_eq!(decode_normal_key(g.pending, false, k('g')).action, NormalAction::Top);
    assert_eq!(decode_normal_key(PendingKey::D, false, k('d')).action, NormalAction::Cut);
    assert_eq!(decode_normal_key(PendingKey::Y, false, k('y')).action, NormalAction::Yank);
    assert_eq!(decode_normal_key(PendingKey::Lt, false, k('<')).action, NormalAction::Outdent);
    assert_eq!(decode_normal_key(PendingKey::Gt, false, k('>')).action, NormalAction::Indent);
    let broken = decode_normal_key(PendingKey::G, false, k('j'));
    assert_eq!(broken.action, NormalAction::MoveDown);
    assert_eq!(broken.pending, PendingKey::Idle);
}

#[test]
fn key_map_samples() {
    let a = |c: KeyPress| decode_normal_key(PendingKey::Idle, false, c).action;
    assert_eq!(a(k('G')), NormalAction::Bottom);
    assert_eq!(a(ctrl('d')), NormalAction::HalfPageDown);
    assert_eq!(a(ctrl('u')), NormalAction::HalfPageUp);
    assert_eq!(a(k('u')), NormalAction::Undo);
    assert_eq!(a(ctrl('r')), NormalAction::Redo);
    assert_eq!(a(k('r')), NormalAction::Refresh);
    assert_eq!(a(ctrl('f')), NormalAction::Search);
    assert_eq!(a(k('f')), NormalAction::Focus);
    assert_eq!(a(key(KeyCode::Enter)), NormalAction::EnterSelected);
    assert_eq!(a(key(KeyCode::Backspace)), NormalAction::Pop);
    assert_eq!(a(k('~')), NormalAction::GoHome);
    assert_eq!(a(key(KeyCode::Tab)), NormalAction::ToggleNotes);
    assert_eq!(a(key(KeyCode::Esc)), NormalAction::Escape);
    assert_eq!(a(k('?')), NormalAction::Help);
    assert_eq!(a(ctrl('j')), NormalAction::MoveDown);
    assert_eq!(a(k('!')), NormalAction::Nothing);
    assert_eq!(decode_normal_key(PendingKey::Idle, false, k('<')).pending, PendingKey::Lt);
}

#[test]
fn help_keys() {
    assert_eq!(help_action(k('q')), HelpAction::Close);
    assert_eq!(help_action(key(KeyCode::Esc)), HelpAction::Close);
    assert_eq!(help_action(k('j')), HelpAction::Down(1));
    assert_eq!(help_action(ctrl('d')), HelpAction::Down(10));
    assert_eq!(help_action(ctrl('u')), HelpAction::Up(10));
    assert_eq!(help_action(k('u')), HelpAction::Nothing);
    assert_eq!(help_action(k('g')), HelpAction::Top);
    assert_eq!(help_action(k('G')), HelpAction::Bottom);
}

#[test]
fn typing_into_a_field() {
    let mut f = TextInput::empty();
    for c in "héllo world".chars() {
        edit_field(&mut f, k(c));
    }
    assert_eq!(f.as_str(), "héllo world");
    edit_field(&mut f, ctrl('w'));
    assert_eq!(f.as_str(), "héllo ");
    edit_field(&mut f, ctrl('a'));
    assert_eq!(f.cursor(), 0);
    edit_field(&mut f, key(KeyCode::Right));
    edit_field(&mut f, key(KeyCode::Right));
    edit_field(&mut f, key(KeyCode::Backspace));
    assert_eq!(f.as_str(), "hllo ");
    edit_field(&mut f, key(KeyCode::Delete));
    assert_eq!(f.as_str(), "hlo ");
    edit_field(&mut f, ctrl('k'));
    assert_eq!(f.as_str(), "h");
    edit_field(&mut f, ctrl('e'));
    edit_field(&mut f, k('i'));
    assert_eq!(f.as_str(), "hi");
    edit_field(&mut f, key(KeyCode::Left));
    edit_field(&mut f, ctrl('u'));
    assert_eq!(f.as_str(), "i");
    assert_eq!(f.cursor(), 0);
    edit_field(&mut f, ctrl('x'));
    edit_field(&mut f, KeyPress { code: KeyCode::Left, ctrl: true });
    assert_eq!(f.as_str(), "i");
}

#[test]
fn field_and_search_actions() {
    assert_eq!(field_action(key(KeyCode::Enter)), FieldAction::Submit);
    assert_eq!(field_action(key(KeyCode::Esc)), FieldAction::Cancel);
    assert_eq!(field_action(k('a')), FieldAction::Edit);
    assert_eq!(search_action(key(KeyCode::Tab)), SearchAction::Next);
    assert_eq!(search_action(key(KeyCode::BackTab)), SearchAction::Previous);
    assert_eq!(search_action(key(KeyCode::Enter)), SearchAction::Open);
    assert_eq!(search_action(k('x')), SearchAction::Edit);
    assert_eq!(search_next(Some(0), 2), Some(1));
    assert_eq!(search_next(Some(1), 2), Some(1));
    assert_eq!(search_next(None, 2), None);
    assert_eq!(search_previous(Some(1)), Some(0));
    assert_eq!(search_previous(Some(0)), Some(0));
    assert!(search_wanted("ab"));
    assert!(search_wanted("é"));
    assert!(!search_wanted("a"));
    assert!(confirms_delete(k('Y')));
    assert!(!confirms_delete(k('n')));
}

#[test]
fn clicks_land_on_rows() {
    assert_eq!(clicked_row(5, 3, 0, 2, 40, 10, 0, 5), Some(1));
    assert_eq!(clicked_row(5, 3, 0, 2, 40, 10, 4, 5), None);
    assert_eq!(clicked_row(5, 3, 0, 2, 40, 10, 3, 5), Some(4));
    assert_eq!(clicked_row(50, 3, 0, 2, 40, 10, 0, 5), None);
    assert_eq!(clicked_row(5, 1, 0, 2, 40, 10, 0, 5), None);
}

#[test]
fn delete_word_after_a_wide_space() {
    let mut f = TextInput::new("a\u{A0}b".to_string());
    assert_eq!(f.cursor(), 3);
    f.delete_word();
    assert_eq!(f.as_str(), "a\u{A0}");
    assert_eq!(f.cursor(), 2);
}

#[test]
fn delete_word_keeps_the_space_before_the_word() {
    let mut f = TextInput::new("buy milk  ".to_string());
    f.delete_word();
    assert_eq!(f.as_str(), "buy ");
    assert_eq!(f.cursor(), 4);
}

#[test]
fn help_scroll_moves_and_stops_at_the_ends() {
    assert_eq!(help_scroll_after(5, HelpAction::Down(10)), 15);
    assert_eq!(help_scroll_after(5, HelpAction::Up(10)), 0);
    assert_eq!(help_scroll_after(u16::MAX - 1, HelpAction::Down(10)), u16::MAX);
    assert_eq!(help_scroll_after(7, HelpAction::Bottom), 100);
    assert_eq!(help_scroll_after(7, HelpAction::Top), 0);
    assert_eq!(help_scroll_after(7, HelpAction::Close), 0);
    assert_eq!(help_scroll_after(7, HelpAction::Nothing), 7);
    assert_eq!(scrolled(2, false, 3), 0);
    assert_eq!(scrolled(2, true, 3), 5);
}

#[test]
fn field_steps_take_trimmed_titles() {
    let enter = KeyPress { code: KeyCode::Enter, ctrl: false };
    let esc = KeyPress { code: KeyCode::Esc, ctrl: false };
    let a = KeyPress { code: KeyCode::Char('a'), ctrl: false };
    match field_step(FieldMode::Adding(AddKind::Push), enter, "  buy milk ") {
        FieldStep::Insert { push, title } => {
            assert!(push);
            assert_eq!(title, "buy milk");
        }
        other => panic!("unexpected {:?}", other),
    }
    assert!(matches!(field_step(FieldMode::Adding(AddKind::Append), enter, "x"), FieldStep::Append { .. }));
    assert!(matches!(field_step(FieldMode::Adding(AddKind::Below), enter, "   "), FieldStep::Closed));
    assert!(matches!(field_step(FieldMode::Editing, enter, "new"), FieldStep::Rename { .. }));
    assert!(matches!(field_step(FieldMode::Editing, esc, "new"), FieldStep::Closed));
    assert!(matches!(field_step(FieldMode::Filtering, enter, ""), FieldStep::SetFilter));
    assert!(matches!(field_step(FieldMode::Filtering, esc, "q"), FieldStep::ClearFilter));
    assert!(matches!(field_step(FieldMode::Filtering, a, "q"), FieldStep::Typed));
}
