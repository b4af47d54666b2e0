//! What a key press means to the terminal interface, in each of its modes:
//! the normal-mode key map with its two-key sequences and the double `q`
//! to quit, the help screen, the text fields and the search list.
use vstd::prelude::*;
use crate::tui::PendingKey;
use crate::text_input::{TextInput, TextInputV, before_word, utf8_byte_count};
use crate::text::{utf8_size, trim, trimmed_nonblank};

verus! {

/// The key of a key press.
#[derive(Debug, Clone, Copy, PartialEq, Eq, Structural)]
pub enum KeyCode {
    Char(char),
    Enter,
    Esc,
    Tab,
    BackTab,
    Backspace,
    Delete,
    Left,
    Right,
    Up,
    Down,
    Home,
    End,
    /// Any other key (function keys and the like).
    Other,
}

/// A key press: the key, and whether Control was held.
#[derive(Debug, Clone, Copy, PartialEq, Eq, Structural)]
pub struct KeyPress {
    pub code: KeyCode,
    pub ctrl: bool,
}

/// What a key does in the normal mode.
#[derive(Debug, Clone, Copy, PartialEq, Eq, Structural)]
pub enum NormalAction {
    /// Nothing (an unbound key, or the first key of a sequence).
    Nothing,
    /// Leave the interface.
    Quit,
    /// Ask for a second `q` before leaving.
    AskQuit,
    /// Select the next row (wrapping).
    MoveDown,
    /// Select the previous row (wrapping).
    MoveUp,
    /// Select the first row (`gg`).
    Top,
    /// Select the last row (`G`).
    Bottom,
    /// Move the selection half a screen down (Ctrl-d).
    HalfPageDown,
    /// Move the selection half a screen up (Ctrl-u).
    HalfPageUp,
    /// Enter the selected task's frame.
    EnterSelected,
    /// Go up to the parent frame.
    Pop,
    /// Go to the root, clearing the filter and the marks.
    GoHome,
    /// Add a task below the selection.
    AddBelow,
    /// Add a task at the end of the frame.
    Append,
    /// Add a task below the selection and enter it.
    AddAndEnter,
    /// Edit the selected task's title.
    EditTitle,
    /// Complete or reopen the selected (or marked) tasks.
    ToggleDone,
    /// Defer the selected task, or bring it back.
    Defer,
    /// Touch the selected task.
    Touch,
    /// Open the search (Ctrl-f).
    Search,
    /// Focus or unfocus the selected task.
    Focus,
    /// Cut the selected task (`dd`).
    Cut,
    /// Copy the selected task (`yy`).
    Yank,
    /// Paste the cut or copied task.
    Paste,
    /// Delete the selected task (asking first when it has children).
    Delete,
    /// Swap the selected task with the one below.
    MoveSelectedDown,
    /// Swap the selected task with the one above.
    MoveSelectedUp,
    /// Move the selected task under its grandparent (`<<`).
    Outdent,
    /// Move the selected task under the sibling above (`>>`).
    Indent,
    /// Mark or unmark the selected task and move down.
    ToggleMark,
    /// Mark every row, or clear the marks.
    MarkAll,
    /// Scroll the notes up.
    NotesUp,
    /// Scroll the notes down.
    NotesDown,
    /// Undo the last change.
    Undo,
    /// Redo the last undone change (Ctrl-r).
    Redo,
    /// Show or hide the notes panel.
    ToggleNotes,
    /// Edit the selected task's notes in an editor.
    EditNotes,
    /// Edit the filter.
    Filter,
    /// Clear the marks, or else the filter.
    Escape,
    /// Switch between the list and the tree.
    ToggleTree,
    /// Show or hide completed tasks.
    ToggleCompleted,
    /// Show or hide deferred tasks.
    ToggleDeferred,
    /// Reload, keeping the selection.
    Refresh,
    /// Show the help screen.
    Help,
    /// Wait for the second key of a sequence.
    Arm(PendingKey),
}

/// The normal-mode key map, for a key that completes no sequence.
pub open spec fn key_command(code: KeyCode, ctrl: bool) -> NormalAction {
    match code {
        KeyCode::Char(c) => {
            if c == 'q' { NormalAction::AskQuit }
            else if c == 'c' && ctrl { NormalAction::Quit }
            else if c == 'j' { NormalAction::MoveDown }
            else if c == 'k' { NormalAction::MoveUp }
            else if c == 'g' { NormalAction::Arm(PendingKey::G) }
            else if c == 'G' { NormalAction::Bottom }
            else if c == 'd' && ctrl { NormalAction::HalfPageDown }
            else if c == 'u' && ctrl { NormalAction::HalfPageUp }
            else if c == 'l' { NormalAction::EnterSelected }
            else if c == 'h' { NormalAction::Pop }
            else if c == 'H' || c == '~' { NormalAction::GoHome }
            else if c == 'a' { NormalAction::AddBelow }
            else if c == 'A' { NormalAction::Append }
            else if c == 'o' { NormalAction::AddAndEnter }
            else if c == 'e' { NormalAction::EditTitle }
            else if c == 'x' { NormalAction::ToggleDone }
            else if c == 'z' { NormalAction::Defer }
            else if c == '.' { NormalAction::Touch }
            else if c == 'f' && ctrl { NormalAction::Search }
            else if c == 'f' { NormalAction::Focus }
            else if c == 'd' { NormalAction::Arm(PendingKey::D) }
            else if c == 'y' { NormalAction::Arm(PendingKey::Y) }
            else if c == 'p' { NormalAction::Paste }
            else if c == 'D' { NormalAction::Delete }
            else if c == 'J' { NormalAction::MoveSelectedDown }
            else if c == 'K' { NormalAction::MoveSelectedUp }
            else if c == '<' { NormalAction::Arm(PendingKey::Lt) }
            else if c == '>' { NormalAction::Arm(PendingKey::Gt) }
            else if c == ' ' { NormalAction::ToggleMark }
            else if c == 'V' { NormalAction::MarkAll }
            else if c == '[' { NormalAction::NotesUp }
            else if c == ']' { NormalAction::NotesDown }
            else if c == 'u' { NormalAction::Undo }
            else if c == 'r' && ctrl { NormalAction::Redo }
            else if c == 'n' { NormalAction::EditNotes }
            else if c == '/' { NormalAction::Filter }
            else if c == 't' { NormalAction::ToggleTree }
            else if c == 'c' { NormalAction::ToggleCompleted }
            else if c == 'Z' { NormalAction::ToggleDeferred }
            else if c == 'r' { NormalAction::Refresh }
            else if c == '?' { NormalAction::Help }
            else { NormalAction::Nothing }
        },
        KeyCode::Down => NormalAction::MoveDown,
        KeyCode::Up => NormalAction::MoveUp,
        KeyCode::Enter | KeyCode::Right => NormalAction::EnterSelected,
        KeyCode::Left | KeyCode::Backspace => NormalAction::Pop,
        KeyCode::Tab => NormalAction::ToggleNotes,
        KeyCode::Esc => NormalAction::Escape,
        _ => NormalAction::Nothing,
    }
}

/// The command a waiting first key and this key complete, if any.
pub open spec fn sequence_command(pending: PendingKey, code: KeyCode) -> Option<NormalAction> {
    match (pending, code) {
        (PendingKey::G, KeyCode::Char('g')) => Some(NormalAction::Top),
        (PendingKey::D, KeyCode::Char('d')) => Some(NormalAction::Cut),
        (PendingKey::Y, KeyCode::Char('y')) => Some(NormalAction::Yank),
        (PendingKey::Lt, KeyCode::Char('<')) => Some(NormalAction::Outdent),
        (PendingKey::Gt, KeyCode::Char('>')) => Some(NormalAction::Indent),
        _ => None,
    }
}

/// The normal mode after a key: the key waiting for a second one, whether a
/// second `q` would quit, whether the "press q again" message goes away,
/// and the command to carry out.
#[derive(Debug, Clone, Copy, PartialEq, Eq, Structural)]
pub struct NormalStep {
    pub pending: PendingKey,
    pub quit_pending: bool,
    pub clear_status: bool,
    pub action: NormalAction,
}

/// What a key does in the normal mode. Any key but `q` cancels a pending
/// quit; a waiting first key is dropped by any key, and a key that does not
/// complete its sequence is then read on its own.
pub open spec fn normal_step(pending: PendingKey, quit_pending: bool, key: KeyPress) -> NormalStep {
    let cancel = key.code != KeyCode::Char('q') && quit_pending;
    let qp = quit_pending && !cancel;
    match sequence_command(pending, key.code) {
        Some(a) => NormalStep { pending: PendingKey::Idle, quit_pending: qp, clear_status: cancel, action: a },
        None => match key_command(key.code, key.ctrl) {
            NormalAction::AskQuit => if qp {
                NormalStep { pending: PendingKey::Idle, quit_pending: qp, clear_status: cancel, action: NormalAction::Quit }
            } else {
                NormalStep { pending: PendingKey::Idle, quit_pending: true, clear_status: cancel, action: NormalAction::AskQuit }
            },
            NormalAction::Arm(p) =>
                NormalStep { pending: p, quit_pending: qp, clear_status: cancel, action: NormalAction::Nothing },
            a => NormalStep { pending: PendingKey::Idle, quit_pending: qp, clear_status: cancel, action: a },
        },
    }
}

/// The key map of the normal mode.
fn key_command_exec(code: KeyCode, ctrl: bool) -> (r: NormalAction)
    ensures
        r == key_command(code, ctrl),
{
    match code {
        KeyCode::Char(c) => {
            if c == 'q' { NormalAction::AskQuit }
            else if c == 'c' && ctrl { NormalAction::Quit }
            else if c == 'j' { NormalAction::MoveDown }
            else if c == 'k' { NormalAction::MoveUp }
            else if c == 'g' { NormalAction::Arm(PendingKey::G) }
            else if c == 'G' { NormalAction::Bottom }
            else if c == 'd' && ctrl { NormalAction::HalfPageDown }
            else if c == 'u' && ctrl { NormalAction::HalfPageUp }
            else if c == 'l' { NormalAction::EnterSelected }
            else if c == 'h' { NormalAction::Pop }
            else if c == 'H' || c == '~' { NormalAction::GoHome }
            else if c == 'a' { NormalAction::AddBelow }
            else if c == 'A' { NormalAction::Append }
            else if c == 'o' { NormalAction::AddAndEnter }
            else if c == 'e' { NormalAction::EditTitle }
            else if c == 'x' { NormalAction::ToggleDone }
            else if c == 'z' { NormalAction::Defer }
            else if c == '.' { NormalAction::Touch }
            else if c == 'f' && ctrl { NormalAction::Search }
            else if c == 'f' { NormalAction::Focus }
            else if c == 'd' { NormalAction::Arm(PendingKey::D) }
            else if c == 'y' { NormalAction::Arm(PendingKey::Y) }
            else if c == 'p' { NormalAction::Paste }
            else if c == 'D' { NormalAction::Delete }
            else if c == 'J' { NormalAction::MoveSelectedDown }
            else if c == 'K' { NormalAction::MoveSelectedUp }
            else if c == '<' { NormalAction::Arm(PendingKey::Lt) }
            else if c == '>' { NormalAction::Arm(PendingKey::Gt) }
            else if c == ' ' { NormalAction::ToggleMark }
            else if c == 'V' { NormalAction::MarkAll }
            else if c == '[' { NormalAction::NotesUp }
            else if c == ']' { NormalAction::NotesDown }
            else if c == 'u' { NormalAction::Undo }
            else if c == 'r' && ctrl { NormalAction::Redo }
            else if c == 'n' { NormalAction::EditNotes }
            else if c == '/' { NormalAction::Filter }
            else if c == 't' { NormalAction::ToggleTree }
            else if c == 'c' { NormalAction::ToggleCompleted }
            else if c == 'Z' { NormalAction::ToggleDeferred }
            else if c == 'r' { NormalAction::Refresh }
            else if c == '?' { NormalAction::Help }
            else { NormalAction::Nothing }
        },
        KeyCode::Down => NormalAction::MoveDown,
        KeyCode::Up => NormalAction::MoveUp,
        KeyCode::Enter | KeyCode::Right => NormalAction::EnterSelected,
        KeyCode::Left | KeyCode::Backspace => NormalAction::Pop,
        KeyCode::Tab => NormalAction::ToggleNotes,
        KeyCode::Esc => NormalAction::Escape,
        _ => NormalAction::Nothing,
    }
}

/// Reads a key in the normal mode.
pub fn decode_normal_key(pending: PendingKey, quit_pending: bool, key: KeyPress) -> (r: NormalStep)
    ensures
        r == normal_step(pending, quit_pending, key),
{
    let cancel = quit_pending && key.code != KeyCode::Char('q');
    let qp = quit_pending && !cancel;
    let seq: Option<NormalAction> = match (pending, key.code) {
        (PendingKey::G, KeyCode::Char('g')) => Some(NormalAction::Top),
        (PendingKey::D, KeyCode::Char('d')) => Some(NormalAction::Cut),
        (PendingKey::Y, KeyCode::Char('y')) => Some(NormalAction::Yank),
        (PendingKey::Lt, KeyCode::Char('<')) => Some(NormalAction::Outdent),
        (PendingKey::Gt, KeyCode::Char('>')) => Some(NormalAction::Indent),
        _ => None,
    };
    match seq {
        Some(a) => NormalStep { pending: PendingKey::Idle, quit_pending: qp, clear_status: cancel, action: a },
        None => match key_command_exec(key.code, key.ctrl) {
            NormalAction::AskQuit => if qp {
                NormalStep { pending: PendingKey::Idle, quit_pending: qp, clear_status: cancel, action: NormalAction::Quit }
            } else {
                NormalStep { pending: PendingKey::Idle, quit_pending: true, clear_status: cancel, action: NormalAction::AskQuit }
            },
            NormalAction::Arm(p) =>
                NormalStep { pending: p, quit_pending: qp, clear_status: cancel, action: NormalAction::Nothing },
            a => NormalStep { pending: PendingKey::Idle, quit_pending: qp, clear_status: cancel, action: a },
        },
    }
}

// ── Help screen ──

/// What a key does on the help screen.
#[derive(Debug, Clone, Copy, PartialEq, Eq, Structural)]
pub enum HelpAction {
    /// Close the help (and scroll it back to the top).
    Close,
    /// Scroll down by this many lines.
    Down(u16),
    /// Scroll up by this many lines.
    Up(u16),
    /// Scroll to the top.
    Top,
    /// Scroll to the end.
    Bottom,
    /// Nothing.
    Nothing,
}

/// The help screen's key map.
pub open spec fn help_action_of(key: KeyPress) -> HelpAction {
    match key.code {
        KeyCode::Char('q') | KeyCode::Esc | KeyCode::Char('?') => HelpAction::Close,
        KeyCode::Char('j') | KeyCode::Down => HelpAction::Down(1),
        KeyCode::Char('k') | KeyCode::Up => HelpAction::Up(1),
        KeyCode::Char('d') if key.ctrl => HelpAction::Down(10),
        KeyCode::Char('u') if key.ctrl => HelpAction::Up(10),
        KeyCode::Char('g') => HelpAction::Top,
        KeyCode::Char('G') => HelpAction::Bottom,
        _ => HelpAction::Nothing,
    }
}

/// Reads a key on the help screen.
pub fn help_action(key: KeyPress) -> (r: HelpAction)
    ensures
        r == help_action_of(key),
{
    match key.code {
        KeyCode::Char('q') | KeyCode::Esc | KeyCode::Char('?') => HelpAction::Close,
        KeyCode::Char('j') | KeyCode::Down => HelpAction::Down(1),
        KeyCode::Char('k') | KeyCode::Up => HelpAction::Up(1),
        KeyCode::Char('d') if key.ctrl => HelpAction::Down(10),
        KeyCode::Char('u') if key.ctrl => HelpAction::Up(10),
        KeyCode::Char('g') => HelpAction::Top,
        KeyCode::Char('G') => HelpAction::Bottom,
        _ => HelpAction::Nothing,
    }
}

/// A scroll position moved by `n` lines, down or up, stopping at the first
/// line and at the largest position a `u16` holds.
pub open spec fn spec_scrolled(pos: int, down: bool, n: int) -> int {
    if down {
        if pos + n > u16::MAX { u16::MAX as int } else { pos + n }
    } else {
        if pos - n < 0 { 0 } else { pos - n }
    }
}

/// Moves a scroll position (of the help or of the notes panel).
pub fn scrolled(pos: u16, down: bool, n: u16) -> (r: u16)
    ensures
        r == spec_scrolled(pos as int, down, n as int),
{
    if down {
        pos.saturating_add(n)
    } else {
        pos.saturating_sub(n)
    }
}

/// The help's scroll position after an action: closing and going to the
/// top give the first line, going to the end gives line 100 (the drawing
/// holds it to the text), and the moves scroll by their lines.
pub open spec fn help_scroll_of(scroll: u16, a: HelpAction) -> int {
    match a {
        HelpAction::Close => 0,
        HelpAction::Down(n) => spec_scrolled(scroll as int, true, n as int),
        HelpAction::Up(n) => spec_scrolled(scroll as int, false, n as int),
        HelpAction::Top => 0,
        HelpAction::Bottom => 100,
        HelpAction::Nothing => scroll as int,
    }
}

/// The help's scroll position after an action on the help screen.
pub fn help_scroll_after(scroll: u16, a: HelpAction) -> (r: u16)
    ensures
        r == help_scroll_of(scroll, a),
{
    match a {
        HelpAction::Close => 0,
        HelpAction::Down(n) => scrolled(scroll, true, n),
        HelpAction::Up(n) => scrolled(scroll, false, n),
        HelpAction::Top => 0,
        HelpAction::Bottom => 100,
        HelpAction::Nothing => scroll,
    }
}

// ── Text fields ──

/// A field after a key is typed into it. With Control: `a` home, `e` end,
/// `w` delete the word before the cursor, `u` delete to the start, `k`
/// delete to the end, other keys ignored. Without: a character is
/// inserted, and the editing and moving keys do what they say.
pub open spec fn field_after(v: TextInputV, key: KeyPress) -> TextInputV {
    let n = v.content.len();
    let c0 = v.cursor;
    if key.ctrl {
        match key.code {
            KeyCode::Char('a') => TextInputV { content: v.content, cursor: 0 },
            KeyCode::Char('e') => TextInputV { content: v.content, cursor: n },
            KeyCode::Char('w') => if c0 == 0 {
                v
            } else {
                let b = before_word(v.content.take(c0 as int));
                TextInputV { content: b + v.content.skip(c0 as int), cursor: b.len() }
            },
            KeyCode::Char('u') => TextInputV { content: v.content.skip(c0 as int), cursor: 0 },
            KeyCode::Char('k') => TextInputV { content: v.content.take(c0 as int), cursor: c0 },
            _ => v,
        }
    } else {
        match key.code {
            KeyCode::Char(c) => TextInputV { content: v.content.insert(c0 as int, c), cursor: c0 + 1 },
            KeyCode::Backspace => if c0 > 0 {
                TextInputV { content: v.content.remove(c0 - 1), cursor: (c0 - 1) as nat }
            } else {
                v
            },
            KeyCode::Delete => if c0 < n {
                TextInputV { content: v.content.remove(c0 as int), cursor: c0 }
            } else {
                v
            },
            KeyCode::Left => TextInputV { content: v.content, cursor: if c0 > 0 { (c0 - 1) as nat } else { 0 } },
            KeyCode::Right => TextInputV { content: v.content, cursor: if c0 < n { c0 + 1 } else { c0 } },
            KeyCode::Home => TextInputV { content: v.content, cursor: 0 },
            KeyCode::End => TextInputV { content: v.content, cursor: n },
            _ => v,
        }
    }
}

/// Types a key into a field.
pub fn edit_field(input: &mut TextInput, key: KeyPress)
    requires
        old(input).wf(),
    ensures
        final(input).wf(),
        final(input)@.content == field_after(old(input)@, key).content,
        final(input)@.cursor == field_after(old(input)@, key).cursor,
{
    if key.ctrl {
        match key.code {
            KeyCode::Char('a') => input.home(),
            KeyCode::Char('e') => input.end(),
            KeyCode::Char('w') => input.delete_word(),
            KeyCode::Char('u') => input.kill_to_start(),
            KeyCode::Char('k') => input.kill_to_end(),
            _ => {},
        }
        return;
    }
    match key.code {
        KeyCode::Char(c) => input.insert(c),
        KeyCode::Backspace => input.backspace(),
        KeyCode::Delete => input.delete(),
        KeyCode::Left => input.move_left(),
        KeyCode::Right => input.move_right(),
        KeyCode::Home => input.home(),
        KeyCode::End => input.end(),
        _ => {},
    }
}

/// What a key does in a field that is being added, edited or filtered.
#[derive(Debug, Clone, Copy, PartialEq, Eq, Structural)]
pub enum FieldAction {
    /// Enter: take the text.
    Submit,
    /// Esc: give up.
    Cancel,
    /// Any other key: edit the text.
    Edit,
}

/// Where a task typed in goes: below the selection, below it and then
/// entered, or after the last sibling.
#[derive(Debug, Clone, Copy, PartialEq, Eq, Structural)]
pub enum AddKind {
    Below,
    Push,
    Append,
}

/// A one-line field the interface is in: a new task's title, the selected
/// task's title, or the filter.
#[derive(Debug, Clone, Copy, PartialEq, Eq, Structural)]
pub enum FieldMode {
    Adding(AddKind),
    Editing,
    Filtering,
}

/// What a key in a field leads to. All but `Typed` close the field and
/// bring the interface back to its normal mode.
#[derive(Debug, Clone)]
pub enum FieldStep {
    /// The key edits the text; the field stays open.
    Typed,
    /// Nothing is done.
    Closed,
    /// A task with this title is inserted below the selection, and entered
    /// when `push`.
    Insert { push: bool, title: String },
    /// A task with this title goes after the last sibling.
    Append { title: String },
    /// The selected task gets this title.
    Rename { title: String },
    /// The filter becomes the field's text.
    SetFilter,
    /// The filter is cleared.
    ClearFilter,
}

/// Enter takes a title only when something is left of it once the white
/// space at its ends is trimmed, and then takes the trimmed text; Escape
/// gives up (clearing the filter); any other key edits the text.
pub open spec fn field_step_ok(mode: FieldMode, key: KeyPress, text: Seq<char>, r: FieldStep) -> bool {
    let nonblank = trim(text).len() > 0;
    if key.code == KeyCode::Enter {
        match mode {
            FieldMode::Adding(kind) => if !nonblank {
                r is Closed
            } else {
                match kind {
                    AddKind::Below => r matches FieldStep::Insert { push, title } && !push && title@ == trim(text),
                    AddKind::Push => r matches FieldStep::Insert { push, title } && push && title@ == trim(text),
                    AddKind::Append => r matches FieldStep::Append { title } && title@ == trim(text),
                }
            },
            FieldMode::Editing => if nonblank {
                r matches FieldStep::Rename { title } && title@ == trim(text)
            } else {
                r is Closed
            },
            FieldMode::Filtering => r is SetFilter,
        }
    } else if key.code == KeyCode::Esc {
        match mode {
            FieldMode::Filtering => r is ClearFilter,
            _ => r is Closed,
        }
    } else {
        r is Typed
    }
}

/// What a key does in a field holding `text`.
pub fn field_step(mode: FieldMode, key: KeyPress, text: &str) -> (r: FieldStep)
    ensures
        field_step_ok(mode, key, text@, r),
{
    match field_action(key) {
        FieldAction::Edit => FieldStep::Typed,
        FieldAction::Cancel => match mode {
            FieldMode::Filtering => FieldStep::ClearFilter,
            _ => FieldStep::Closed,
        },
        FieldAction::Submit => match mode {
            FieldMode::Filtering => FieldStep::SetFilter,
            FieldMode::Editing => match trimmed_nonblank(text) {
                Some(title) => FieldStep::Rename { title },
                None => FieldStep::Closed,
            },
            FieldMode::Adding(kind) => match trimmed_nonblank(text) {
                Some(title) => match kind {
                    AddKind::Below => FieldStep::Insert { push: false, title },
                    AddKind::Push => FieldStep::Insert { push: true, title },
                    AddKind::Append => FieldStep::Append { title },
                },
                None => FieldStep::Closed,
            },
        },
    }
}

/// Reads a key in a field.
pub fn field_action(key: KeyPress) -> (r: FieldAction)
    ensures
        key.code == KeyCode::Enter ==> r == FieldAction::Submit,
        key.code == KeyCode::Esc ==> r == FieldAction::Cancel,
        key.code != KeyCode::Enter && key.code != KeyCode::Esc ==> r == FieldAction::Edit,
{
    match key.code {
        KeyCode::Enter => FieldAction::Submit,
        KeyCode::Esc => FieldAction::Cancel,
        _ => FieldAction::Edit,
    }
}

// ── Search ──

/// What a key does in the search.
#[derive(Debug, Clone, Copy, PartialEq, Eq, Structural)]
pub enum SearchAction {
    /// Esc: close the search.
    Close,
    /// Enter: go to the selected result.
    Open,
    /// Down or Tab: the next result.
    Next,
    /// Up or Shift-Tab: the previous result.
    Previous,
    /// Any other key: edit the query.
    Edit,
}

/// Reads a key in the search.
pub fn search_action(key: KeyPress) -> (r: SearchAction)
    ensures
        key.code == KeyCode::Esc ==> r == SearchAction::Close,
        key.code == KeyCode::Enter ==> r == SearchAction::Open,
        (key.code == KeyCode::Down || key.code == KeyCode::Tab) ==> r == SearchAction::Next,
        (key.code == KeyCode::Up || key.code == KeyCode::BackTab) ==> r == SearchAction::Previous,
        !(key.code == KeyCode::Esc || key.code == KeyCode::Enter || key.code == KeyCode::Down
            || key.code == KeyCode::Tab || key.code == KeyCode::Up || key.code == KeyCode::BackTab)
            ==> r == SearchAction::Edit,
{
    match key.code {
        KeyCode::Esc => SearchAction::Close,
        KeyCode::Enter => SearchAction::Open,
        KeyCode::Down | KeyCode::Tab => SearchAction::Next,
        KeyCode::Up | KeyCode::BackTab => SearchAction::Previous,
        _ => SearchAction::Edit,
    }
}

/// The selected search result after moving to the next one: it stops at
/// the last result, and nothing is selected when nothing was.
pub fn search_next(selected: Option<usize>, len: usize) -> (r: Option<usize>)
    ensures
        selected is None ==> r is None,
        selected is Some && selected->0 + 1 < len ==> r == Some((selected->0 + 1) as usize),
        selected is Some && selected->0 + 1 >= len ==> r == selected,
{
    match selected {
        Some(s) => if s < len && s + 1 < len { Some(s + 1) } else { selected },
        None => None,
    }
}

/// The selected search result after moving to the previous one: it stops
/// at the first.
pub fn search_previous(selected: Option<usize>) -> (r: Option<usize>)
    ensures
        selected is None ==> r is None,
        selected is Some && selected->0 > 0 ==> r == Some((selected->0 - 1) as usize),
        selected == Some(0usize) ==> r == selected,
{
    match selected {
        Some(s) => if s > 0 { Some(s - 1) } else { selected },
        None => None,
    }
}

/// A query is searched for once it is at least two bytes long.
pub fn search_wanted(query: &str) -> (r: bool)
    ensures
        r == (utf8_size(query@) >= 2),
{
    utf8_byte_count(query) >= 2
}

/// Whether a key confirms the deletion of a task with children: `y` or `Y`.
pub fn confirms_delete(key: KeyPress) -> (r: bool)
    ensures
        r == (key.code == KeyCode::Char('y') || key.code == KeyCode::Char('Y')),
{
    key.code == KeyCode::Char('y') || key.code == KeyCode::Char('Y')
}

// ── Mouse ──

/// The row a click at (`col`, `row`) lands on in a list drawn in the area
/// at (`x`, `y`) of size `width` by `height`, scrolled by `offset` rows and
/// holding `count` rows; none when it lands outside the area or below the
/// last row.
pub fn clicked_row(col: u16, row: u16, x: u16, y: u16, width: u16, height: u16, offset: usize, count: usize) -> (r: Option<usize>)
    ensures
        r is Some ==> y <= row < y + height && x <= col < x + width && r->0 == offset + (row - y) && r->0 < count,
        (y <= row < y + height && x <= col < x + width && offset + (row - y) < count) ==> r == Some((offset + (row - y)) as usize),
{
    let inside = row >= y && (row as u32) < (y as u32) + (height as u32)
        && col >= x && (col as u32) < (x as u32) + (width as u32);
    if !inside {
        return None;
    }
    let clicked = (row - y) as usize;
    if offset < count && clicked < count - offset {
        Some(offset + clicked)
    } else {
        None
    }
}

} // verus!
